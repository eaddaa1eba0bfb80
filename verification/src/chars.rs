//! Character and digit-string helpers shared by the lexer, the temporal
//! parsers and the diagnostic renderer.

use vstd::prelude::*;

verus! {

broadcast use vstd::std_specs::vec::group_vec_axioms, vstd::seq::group_seq_axioms;

/// A decimal digit.
pub open spec fn is_digit(c: char) -> bool {
    48 <= c as u32 <= 57
}

/// Numeric value of a decimal digit.
pub open spec fn digit_val(c: char) -> nat {
    (c as u32 - 48) as nat
}

/// Every character of `s` is a decimal digit.
pub open spec fn all_digits(s: Seq<char>) -> bool {
    forall|i: int| 0 <= i < s.len() ==> is_digit(#[trigger] s[i])
}

/// Value of a digit string read left to right.
pub open spec fn digits_val(s: Seq<char>) -> nat
    decreases s.len(),
{
    if s.len() == 0 {
        0
    } else {
        digits_val(s.drop_last()) * 10 + digit_val(s.last())
    }
}

pub open spec fn pow10(n: nat) -> nat
    decreases n,
{
    if n == 0 {
        1
    } else {
        10 * pow10((n - 1) as nat)
    }
}

/// Reading one more digit multiplies the prefix value by ten and adds it.
pub proof fn lemma_digits_val_take_succ(s: Seq<char>, i: int)
    requires
        0 <= i < s.len(),
    ensures
        digits_val(s.take(i + 1)) == digits_val(s.take(i)) * 10 + digit_val(s[i]),
{
    let t = s.take(i + 1);
    assert(t.drop_last() =~= s.take(i));
    assert(t.last() == s[i]);
}

pub proof fn lemma_digits_val_full_take(s: Seq<char>)
    ensures
        digits_val(s.take(s.len() as int)) == digits_val(s),
{
    assert(s.take(s.len() as int) =~= s);
}

/// A longer digit string never has a smaller value.
pub proof fn lemma_digits_val_take_monotone(s: Seq<char>, i: int)
    requires
        0 <= i <= s.len(),
    ensures
        digits_val(s.take(i)) <= digits_val(s),
    decreases s.len() - i,
{
    if i == s.len() {
        lemma_digits_val_full_take(s);
    } else {
        lemma_digits_val_take_succ(s, i);
        lemma_digits_val_take_monotone(s, i + 1);
    }
}

/// A digit string of length `n` has value below `pow10(n)`.
pub proof fn lemma_digits_val_bound(s: Seq<char>)
    requires
        all_digits(s),
    ensures
        digits_val(s) < pow10(s.len()),
    decreases s.len(),
{
    if s.len() > 0 {
        assert(all_digits(s.drop_last())) by {
            assert(forall|i: int|
                0 <= i < s.drop_last().len() ==> s.drop_last()[i] == #[trigger] s[i]);
        }
        lemma_digits_val_bound(s.drop_last());
        assert(digit_val(s.last()) <= 9);
    }
}

pub fn digit_check(c: char) -> (r: bool)
    ensures
        r == is_digit(c),
{
    let u = c as u32;
    48 <= u && u <= 57
}

/// First index at or after `from` holding a non-digit.
pub fn scan_digits(v: &Vec<char>, from: usize) -> (r: usize)
    requires
        from <= v@.len(),
    ensures
        from <= r <= v@.len(),
        all_digits(v@.subrange(from as int, r as int)),
        r < v@.len() ==> !is_digit(v@[r as int]),
{
    let mut i = from;
    while i < v.len()
        invariant
            from <= i <= v@.len(),
            all_digits(v@.subrange(from as int, i as int)),
        decreases v@.len() - i,
    {
        if !digit_check(v[i]) {
            return i;
        }
        assert(v@.subrange(from as int, i + 1 as int) =~= v@.subrange(from as int, i as int).push(
            v@[i as int],
        ));
        i = i + 1;
    }
    i
}

/// Whether `v[from..to]` is all digits.
pub fn all_digits_range(v: &Vec<char>, from: usize, to: usize) -> (r: bool)
    requires
        from <= to <= v@.len(),
    ensures
        r == all_digits(v@.subrange(from as int, to as int)),
{
    let m = scan_digits(v, from);
    if m >= to {
        proof {
            let s = v@.subrange(from as int, to as int);
            assert(forall|i: int| 0 <= i < s.len() ==> #[trigger] s[i] == v@.subrange(
                from as int,
                m as int,
            )[i]);
        }
        true
    } else {
        proof {
            let s = v@.subrange(from as int, to as int);
            assert(s[m - from] == v@[m as int]);
        }
        false
    }
}

/// Parses the digits of `v[from..to]`, refusing a value above `max`.
pub fn parse_digits_checked(v: &Vec<char>, from: usize, to: usize, max: u64) -> (r: Option<u64>)
    requires
        from <= to <= v@.len(),
        all_digits(v@.subrange(from as int, to as int)),
    ensures
        match r {
            Some(x) => x as nat == digits_val(v@.subrange(from as int, to as int)) && x <= max,
            None => digits_val(v@.subrange(from as int, to as int)) > max,
        },
{
    let ghost s = v@.subrange(from as int, to as int);
    let mut acc: u64 = 0;
    let mut i = from;
    while i < to
        invariant
            from <= i <= to <= v@.len(),
            s == v@.subrange(from as int, to as int),
            all_digits(s),
            acc as nat == digits_val(s.take(i - from)),
            acc <= max,
        decreases to - i,
    {
        proof {
            lemma_digits_val_take_succ(s, i - from);
            assert(s[i - from] == v@[i as int]);
            assert(is_digit(s[i - from]));
        }
        let d = (v[i] as u32 - 48) as u64;
        let wide: u128 = acc as u128 * 10 + d as u128;
        if wide > max as u128 {
            proof {
                lemma_digits_val_take_monotone(s, i - from + 1);
            }
            return None;
        }
        acc = wide as u64;
        i = i + 1;
    }
    proof {
        lemma_digits_val_full_take(s);
    }
    Some(acc)
}

/// A leading `-` or `+`.
pub open spec fn int_sign(s: Seq<char>) -> bool {
    s.len() > 0 && (s[0] == '-' || s[0] == '+')
}

/// The digits of a signed integer lexeme, after any sign.
pub open spec fn int_digits(s: Seq<char>) -> Seq<char> {
    if int_sign(s) {
        s.subrange(1, s.len() as int)
    } else {
        s
    }
}

/// An optional sign followed by at least one digit.
pub open spec fn is_int_lexeme(s: Seq<char>) -> bool {
    int_digits(s).len() > 0 && all_digits(int_digits(s))
}

/// Signed value of an integer lexeme.
pub open spec fn int_val(s: Seq<char>) -> int {
    if s.len() > 0 && s[0] == '-' {
        -(digits_val(int_digits(s)) as int)
    } else {
        digits_val(int_digits(s)) as int
    }
}

pub open spec fn fits_i64(v: int) -> bool {
    -0x8000_0000_0000_0000 <= v <= 0x7fff_ffff_ffff_ffff
}

/// Parses `v[from..to]` as a signed 64-bit integer; `None` on any text that
/// is not an integer lexeme in range.
pub fn parse_i64_range(v: &Vec<char>, from: usize, to: usize) -> (r: Option<i64>)
    requires
        from <= to <= v@.len(),
    ensures
        ({
            let s = v@.subrange(from as int, to as int);
            match r {
                Some(x) => is_int_lexeme(s) && fits_i64(int_val(s)) && x as int == int_val(s),
                None => !(is_int_lexeme(s) && fits_i64(int_val(s))),
            }
        }),
{
    let ghost s = v@.subrange(from as int, to as int);
    if to == from {
        return None;
    }
    let neg = v[from] == '-';
    let signed = neg || v[from] == '+';
    let start = if signed {
        from + 1
    } else {
        from
    };
    proof {
        if signed {
            assert(int_digits(s) =~= v@.subrange(start as int, to as int));
        } else {
            assert(int_digits(s) =~= v@.subrange(start as int, to as int));
        }
    }
    if start == to {
        return None;
    }
    if !all_digits_range(v, start, to) {
        return None;
    }
    let cap: u64 = if neg {
        0x8000_0000_0000_0000
    } else {
        0x7fff_ffff_ffff_ffff
    };
    match parse_digits_checked(v, start, to, cap) {
        Some(mag) => {
            if neg {
                if mag == 0x8000_0000_0000_0000 {
                    Some(i64::MIN)
                } else {
                    Some(-(mag as i64))
                }
            } else {
                Some(mag as i64)
            }
        },
        None => None,
    }
}

/// The character of a decimal digit.
pub open spec fn digit_char(d: nat) -> char {
    if d == 0 {
        '0'
    } else if d == 1 {
        '1'
    } else if d == 2 {
        '2'
    } else if d == 3 {
        '3'
    } else if d == 4 {
        '4'
    } else if d == 5 {
        '5'
    } else if d == 6 {
        '6'
    } else if d == 7 {
        '7'
    } else if d == 8 {
        '8'
    } else {
        '9'
    }
}

/// Decimal rendering of a natural number, without leading zeros.
pub open spec fn dec_str(n: nat) -> Seq<char>
    decreases n,
{
    if n < 10 {
        seq![digit_char(n)]
    } else {
        dec_str(n / 10).push(digit_char(n % 10))
    }
}

pub proof fn lemma_dec_str_digits(n: nat)
    ensures
        all_digits(dec_str(n)),
        dec_str(n).len() >= 1,
        digits_val(dec_str(n)) == n,
        n >= 1 ==> dec_str(n)[0] != '0',
        is_digit(digit_char(n % 10)),
    decreases n,
{
    if n < 10 {
        assert(digits_val(dec_str(n)) == digits_val(seq![digit_char(n)].drop_last()) * 10
            + digit_val(seq![digit_char(n)].last()));
        assert(seq![digit_char(n)].drop_last() =~= Seq::<char>::empty());
    } else {
        lemma_dec_str_digits(n / 10);
        let s = dec_str(n);
        assert(s.drop_last() =~= dec_str(n / 10));
        assert(s.last() == digit_char(n % 10));
        assert(forall|i: int| 0 <= i < s.len() ==> is_digit(#[trigger] s[i])) by {
            assert(forall|i: int|
                0 <= i < s.len() - 1 ==> #[trigger] s[i] == dec_str(n / 10)[i]);
        }
    }
}

fn digit_str(d: u64) -> (r: &'static str)
    requires
        d < 10,
    ensures
        r@ =~= seq![digit_char(d as nat)],
{
    proof {
        reveal_strlit("0");
        reveal_strlit("1");
        reveal_strlit("2");
        reveal_strlit("3");
        reveal_strlit("4");
        reveal_strlit("5");
        reveal_strlit("6");
        reveal_strlit("7");
        reveal_strlit("8");
        reveal_strlit("9");
    }
    if d == 0 {
        "0"
    } else if d == 1 {
        "1"
    } else if d == 2 {
        "2"
    } else if d == 3 {
        "3"
    } else if d == 4 {
        "4"
    } else if d == 5 {
        "5"
    } else if d == 6 {
        "6"
    } else if d == 7 {
        "7"
    } else if d == 8 {
        "8"
    } else {
        "9"
    }
}

/// Decimal formatting of an unsigned number.
pub fn fmt_u64(n: u64) -> (r: String)
    ensures
        r@ == dec_str(n as nat),
    decreases n,
{
    if n < 10 {
        let s = digit_str(n);
        let r = s.to_owned();
        assert(r@ =~= dec_str(n as nat));
        r
    } else {
        let mut r = fmt_u64(n / 10);
        let d = digit_str(n % 10);
        r.append(d);
        assert(r@ =~= dec_str(n as nat));
        r
    }
}

/// The characters of `s` as a vector.
pub fn to_chars(s: &str) -> (r: Vec<char>)
    ensures
        r@ == s@,
{
    let n = s.unicode_len();
    let mut r: Vec<char> = Vec::new();
    let mut i: usize = 0;
    while i < n
        invariant
            i <= n,
            n == s@.len(),
            r@ =~= s@.take(i as int),
        decreases n - i,
    {
        let c = s.get_char(i);
        r.push(c);
        assert(r@ =~= s@.take(i + 1));
        i = i + 1;
    }
    assert(r@ =~= s@);
    r
}

/// The slice of `s` between character positions `from` and `to`, owned.
pub fn string_from_range(s: &str, from: usize, to: usize) -> (r: String)
    requires
        from <= to <= s@.len(),
    ensures
        r@ == s@.subrange(from as int, to as int),
{
    let t = s.substring_char(from, to);
    t.to_owned()
}

/// Compares `v[from..to]` against the characters of `w`.
pub fn range_eq_str(v: &Vec<char>, from: usize, to: usize, w: &str) -> (r: bool)
    requires
        from <= to <= v@.len(),
    ensures
        r == (v@.subrange(from as int, to as int) == w@),
{
    let n = w.unicode_len();
    if to - from != n {
        proof {
            if v@.subrange(from as int, to as int) == w@ {
                assert(v@.subrange(from as int, to as int).len() == w@.len());
            }
        }
        return false;
    }
    let mut j: usize = 0;
    while j < n
        invariant
            j <= n,
            n == w@.len(),
            to - from == n,
            from <= to <= v@.len(),
            forall|k: int| 0 <= k < j ==> v@[from + k] == w@[k],
        decreases n - j,
    {
        if v[from + j] != w.get_char(j) {
            proof {
                if v@.subrange(from as int, to as int) == w@ {
                    assert(v@.subrange(from as int, to as int)[j as int] == w@[j as int]);
                }
            }
            return false;
        }
        j = j + 1;
    }
    proof {
        assert(v@.subrange(from as int, to as int) =~= w@);
    }
    true
}

/// Whether two string slices hold the same characters.
pub fn str_eq_str(a: &str, b: &str) -> (r: bool)
    ensures
        r == (a@ == b@),
{
    let v = to_chars(a);
    let n = v.len();
    proof {
        assert(v@.subrange(0, n as int) =~= v@);
    }
    range_eq_str(&v, 0, n, b)
}

/// A string of `n` spaces.
pub fn spaces(n: usize) -> (r: String)
    ensures
        r@ == Seq::new(n as nat, |i: int| ' '),
{
    proof {
        reveal_strlit(" ");
    }
    let mut r = String::new();
    let mut i: usize = 0;
    while i < n
        invariant
            i <= n,
            r@ =~= Seq::new(i as nat, |k: int| ' '),
        decreases n - i,
    {
        r.append(" ");
        proof {
            reveal_strlit(" ");
        }
        assert(r@ =~= Seq::new((i + 1) as nat, |k: int| ' '));
        i = i + 1;
    }
    assert(r@ =~= Seq::new(n as nat, |i: int| ' '));
    r
}

} // verus!
