//! Plain-text groundwork: decimal formatting and parsing of integers, string
//! equality, and the lexicographic order on character sequences that the
//! store uses to rank timestamps.

use vstd::prelude::*;
use vstd::relations::total_ordering;

verus! {

/// Relies on std's `String::push`: appends the given character to the end of
/// the string.
pub assume_specification[ String::push ](s: &mut String, ch: char)
    ensures
        final(s)@ == old(s)@.push(ch),
;

/// The decimal digit character for a value in `0..10`.
pub open spec fn dec_digit(d: int) -> char {
    ((d + 48) as u8) as char
}

/// The decimal representation of a natural number, most significant digit
/// first, with no leading zeros.
pub open spec fn dec_str_nat(n: nat) -> Seq<char>
    decreases n,
{
    if n < 10 {
        seq![dec_digit(n as int)]
    } else {
        dec_str_nat(n / 10) + seq![dec_digit((n % 10) as int)]
    }
}

/// The decimal representation of an integer: a leading minus sign when
/// negative.
pub open spec fn dec_str_int(n: int) -> Seq<char> {
    if n >= 0 {
        dec_str_nat(n as nat)
    } else {
        seq!['-'] + dec_str_nat((-n) as nat)
    }
}

proof fn lemma_reverse_push<A>(s: Seq<A>, x: A)
    ensures
        s.push(x).reverse() =~= seq![x] + s.reverse(),
{
}

/// Formats an unsigned value in decimal.
pub fn u64_to_dec(n: u64) -> (r: String)
    ensures
        r@ == dec_str_nat(n as nat),
{
    let mut digits: Vec<u8> = Vec::new();
    let mut m = n;
    while m >= 10
        invariant
            dec_str_nat(n as nat) =~= dec_str_nat(m as nat) + digits@.map_values(
                |d: u8| dec_digit(d as int),
            ).reverse(),
            forall|i: int| 0 <= i < digits@.len() ==> digits@[i] < 10,
        decreases m,
    {
        let d = (m % 10) as u8;
        proof {
            let ds = digits@.map_values(|d: u8| dec_digit(d as int));
            lemma_reverse_push(ds, dec_digit(d as int));
            assert(digits@.push(d).map_values(|d: u8| dec_digit(d as int)) =~= ds.push(
                dec_digit(d as int),
            ));
            assert(dec_str_nat(m as nat) =~= dec_str_nat(m as nat / 10) + seq![
                dec_digit((m as nat % 10) as int),
            ]);
        }
        digits.push(d);
        m = m / 10;
    }
    let mut r = String::new();
    r.push((48 + m as u8) as char);
    let mut i: usize = 0;
    proof {
        assert(r@ =~= dec_str_nat(m as nat));
    }
    while i < digits.len()
        invariant
            i <= digits@.len(),
            forall|j: int| 0 <= j < digits@.len() ==> digits@[j] < 10,
            r@ =~= dec_str_nat(m as nat) + digits@.map_values(|d: u8| dec_digit(d as int))
                .reverse().take(i as int),
            dec_str_nat(n as nat) =~= dec_str_nat(m as nat) + digits@.map_values(
                |d: u8| dec_digit(d as int),
            ).reverse(),
        decreases digits@.len() - i,
    {
        let d = digits[digits.len() - 1 - i];
        r.push((48 + d) as char);
        proof {
            let rev = digits@.map_values(|d: u8| dec_digit(d as int)).reverse();
            assert(rev[i as int] == dec_digit(d as int));
            assert(rev.take(i + 1) =~= rev.take(i as int).push(rev[i as int]));
        }
        i = i + 1;
    }
    proof {
        let rev = digits@.map_values(|d: u8| dec_digit(d as int)).reverse();
        assert(rev.take(digits@.len() as int) =~= rev);
    }
    r
}

/// Formats a signed value in decimal.
pub fn i64_to_dec(n: i64) -> (r: String)
    ensures
        r@ == dec_str_int(n as int),
{
    if n >= 0 {
        u64_to_dec(n as u64)
    } else {
        let mag: u64 = ((-(n + 1)) as u64) + 1;
        let mut r = String::new();
        r.push('-');
        let digits = u64_to_dec(mag);
        r.append(digits.as_str());
        proof {
            assert(r@ =~= seq!['-'] + dec_str_nat((-(n as int)) as nat));
        }
        r
    }
}

/// Formats a 32-bit signed value in decimal.
pub fn i32_to_dec(n: i32) -> (r: String)
    ensures
        r@ == dec_str_int(n as int),
{
    i64_to_dec(n as i64)
}

/// Whether two strings hold the same characters.
pub fn str_eq(a: &str, b: &str) -> (r: bool)
    ensures
        r == (a@ == b@),
{
    let alen = a.unicode_len();
    let blen = b.unicode_len();
    if alen != blen {
        proof {
            assert(a@ != b@) by {
                assert(a@.len() != b@.len());
            }
        }
        return false;
    }
    let mut i: usize = 0;
    while i < alen
        invariant
            alen == a@.len(),
            alen == b@.len(),
            i <= alen,
            forall|j: int| 0 <= j < i ==> a@[j] == b@[j],
        decreases alen - i,
    {
        if a.get_char(i) as u32 != b.get_char(i) as u32 {
            proof {
                assert(a@[i as int] as u32 != b@[i as int] as u32);
            }
            return false;
        }
        proof {
            assert(a@[i as int] as u32 == b@[i as int] as u32);
            assert(a@[i as int] == b@[i as int]) by {
                assert(a@[i as int] as u32 == b@[i as int] as u32);
            }
        }
        i = i + 1;
    }
    proof {
        assert(a@ =~= b@);
    }
    true
}

/// Lexicographic order on character sequences, by code point; the order in
/// which the store ranks timestamps.
pub open spec fn lex_le(a: Seq<char>, b: Seq<char>) -> bool
    decreases a.len(),
{
    if a.len() == 0 {
        true
    } else if b.len() == 0 {
        false
    } else if (a[0] as int) < (b[0] as int) {
        true
    } else if (a[0] as int) > (b[0] as int) {
        false
    } else {
        lex_le(a.drop_first(), b.drop_first())
    }
}

/// Strict version of [`lex_le`].
pub open spec fn lex_lt(a: Seq<char>, b: Seq<char>) -> bool {
    lex_le(a, b) && a != b
}

/// The order relation as a value, for use with ordering lemmas.
pub open spec fn lex_leq_fn() -> spec_fn(Seq<char>, Seq<char>) -> bool {
    |a: Seq<char>, b: Seq<char>| lex_le(a, b)
}

pub proof fn lemma_lex_le_reflexive(a: Seq<char>)
    ensures
        lex_le(a, a),
    decreases a.len(),
{
    if a.len() > 0 {
        lemma_lex_le_reflexive(a.drop_first());
    }
}

pub proof fn lemma_lex_le_total(a: Seq<char>, b: Seq<char>)
    ensures
        lex_le(a, b) || lex_le(b, a),
    decreases a.len(),
{
    if a.len() > 0 && b.len() > 0 && a[0] == b[0] {
        lemma_lex_le_total(a.drop_first(), b.drop_first());
    }
}

pub proof fn lemma_lex_le_antisymmetric(a: Seq<char>, b: Seq<char>)
    requires
        lex_le(a, b),
        lex_le(b, a),
    ensures
        a == b,
    decreases a.len(),
{
    if a.len() == 0 {
        assert(b.len() == 0);
        assert(a =~= b);
    } else {
        assert(b.len() > 0);
        assert(a[0] == b[0]);
        lemma_lex_le_antisymmetric(a.drop_first(), b.drop_first());
        assert(a =~= seq![a[0]] + a.drop_first());
        assert(b =~= seq![b[0]] + b.drop_first());
    }
}

pub proof fn lemma_lex_le_transitive(a: Seq<char>, b: Seq<char>, c: Seq<char>)
    requires
        lex_le(a, b),
        lex_le(b, c),
    ensures
        lex_le(a, c),
    decreases a.len(),
{
    if a.len() > 0 && b.len() > 0 && c.len() > 0 && a[0] == b[0] && b[0] == c[0] {
        lemma_lex_le_transitive(a.drop_first(), b.drop_first(), c.drop_first());
    }
}

/// `lex_le` is a total order on character sequences.
pub proof fn lemma_lex_le_total_ordering()
    ensures
        total_ordering(lex_leq_fn()),
{
    let leq = lex_leq_fn();
    assert forall|a: Seq<char>| #[trigger] leq(a, a) by {
        lemma_lex_le_reflexive(a);
    }
    assert forall|a: Seq<char>, b: Seq<char>| #[trigger] leq(a, b) && #[trigger] leq(b, a)
        implies a == b by {
        lemma_lex_le_antisymmetric(a, b);
    }
    assert forall|a: Seq<char>, b: Seq<char>, c: Seq<char>|
        #[trigger] leq(a, b) && #[trigger] leq(b, c) implies leq(a, c) by {
        lemma_lex_le_transitive(a, b, c);
    }
    assert forall|a: Seq<char>, b: Seq<char>| #[trigger] leq(a, b) || #[trigger] leq(b, a) by {
        lemma_lex_le_total(a, b);
    }
}

/// Whether `a` is lexicographically at most `b`.
pub fn str_lex_le(a: &str, b: &str) -> (r: bool)
    ensures
        r == lex_le(a@, b@),
{
    let alen = a.unicode_len();
    let blen = b.unicode_len();
    let mut i: usize = 0;
    proof {
        assert(a@.skip(0) =~= a@);
        assert(b@.skip(0) =~= b@);
    }
    loop
        invariant
            alen == a@.len(),
            blen == b@.len(),
            i <= alen,
            i <= blen,
            lex_le(a@, b@) == lex_le(a@.skip(i as int), b@.skip(i as int)),
        decreases alen - i,
    {
        if i >= alen {
            proof {
                assert(a@.skip(i as int).len() == 0);
            }
            return true;
        }
        if i >= blen {
            proof {
                assert(b@.skip(i as int).len() == 0);
                assert(a@.skip(i as int).len() > 0);
            }
            return false;
        }
        let ca = a.get_char(i) as u32;
        let cb = b.get_char(i) as u32;
        proof {
            assert(a@.skip(i as int)[0] == a@[i as int]);
            assert(b@.skip(i as int)[0] == b@[i as int]);
        }
        if ca < cb {
            return true;
        }
        if ca > cb {
            return false;
        }
        proof {
            assert(a@[i as int] == b@[i as int]) by {
                assert(a@[i as int] as u32 == b@[i as int] as u32);
            }
            assert(a@.skip(i as int).drop_first() =~= a@.skip(i + 1));
            assert(b@.skip(i as int).drop_first() =~= b@.skip(i + 1));
        }
        i = i + 1;
    }
}

/// Whether `c` is a decimal digit.
pub open spec fn is_dec_digit_char(c: char) -> bool {
    48 <= c as int <= 57
}

/// Whether every character of `s` is a decimal digit.
pub open spec fn all_dec_digits(s: Seq<char>) -> bool {
    forall|i: int| 0 <= i < s.len() ==> is_dec_digit_char(s[i])
}

/// The value of a sequence of decimal digits, most significant first.
pub open spec fn dec_val(s: Seq<char>) -> int
    decreases s.len(),
{
    if s.len() == 0 {
        0
    } else {
        10 * dec_val(s.drop_last()) + (s.last() as int - 48)
    }
}

/// The digits of a signed decimal string: everything after an optional
/// leading sign.
pub open spec fn dec_body(s: Seq<char>) -> Seq<char> {
    if s.len() > 0 && (s[0] == '+' || s[0] == '-') {
        s.drop_first()
    } else {
        s
    }
}

/// The value denoted by a signed decimal string.
pub open spec fn signed_dec_val(s: Seq<char>) -> int {
    if s.len() > 0 && s[0] == '-' {
        -dec_val(dec_body(s))
    } else {
        dec_val(dec_body(s))
    }
}

/// Whether `s` is a decimal string whose value fits in an `i64`: an optional
/// sign, at least one digit, nothing else.
pub open spec fn is_i64_string(s: Seq<char>) -> bool {
    &&& dec_body(s).len() > 0
    &&& all_dec_digits(dec_body(s))
    &&& i64::MIN <= signed_dec_val(s) <= i64::MAX
}

pub proof fn lemma_dec_val_nonneg(s: Seq<char>)
    requires
        all_dec_digits(s),
    ensures
        dec_val(s) >= 0,
    decreases s.len(),
{
    if s.len() > 0 {
        lemma_dec_val_nonneg(s.drop_last());
    }
}

/// Appending digits never shrinks the value of a digit string.
pub proof fn lemma_dec_val_prefix(s: Seq<char>, i: int)
    requires
        all_dec_digits(s),
        0 <= i <= s.len(),
    ensures
        dec_val(s.take(i)) <= dec_val(s),
    decreases s.len() - i,
{
    if i < s.len() {
        lemma_dec_val_prefix(s, i + 1);
        let t = s.take(i + 1);
        assert(t.drop_last() =~= s.take(i));
        assert(all_dec_digits(s.take(i))) by {
            assert(forall|j: int| 0 <= j < i ==> s.take(i)[j] == s[j]);
        }
        lemma_dec_val_nonneg(s.take(i));
        assert(dec_val(t) == 10 * dec_val(s.take(i)) + (t.last() as int - 48));
        assert(dec_val(s.take(i)) <= dec_val(t));
    } else {
        assert(s.take(i) =~= s);
    }
}

/// Parses a decimal string as `str::parse::<i64>` would: an optional sign,
/// then digits; rejects anything else and values outside the `i64` range.
pub fn parse_i64(s: &str) -> (r: Option<i64>)
    ensures
        (r is Some) == is_i64_string(s@),
        r matches Some(v) ==> v as int == signed_dec_val(s@),
{
    let len = s.unicode_len();
    if len == 0 {
        return None;
    }
    let c0 = s.get_char(0);
    let neg = c0 == '-';
    let start: usize = if c0 == '-' || c0 == '+' {
        1
    } else {
        0
    };
    proof {
        assert(dec_body(s@) =~= s@.skip(start as int));
    }
    if start == len {
        proof {
            assert(dec_body(s@).len() == 0);
        }
        return None;
    }
    let body_ghost = Ghost(s@.skip(start as int));
    let mut acc: u64 = 0;
    let mut i = start;
    while i < len
        invariant
            len == s@.len(),
            start <= i <= len,
            start < len,
            body_ghost@ == s@.skip(start as int),
            body_ghost@ == dec_body(s@),
            all_dec_digits(body_ghost@.take(i - start)),
            acc as int == dec_val(body_ghost@.take(i - start)),
        decreases len - i,
    {
        let c = s.get_char(i);
        let cu = c as u32;
        if cu < 48 || cu > 57 {
            proof {
                assert(body_ghost@[i - start] == s@[i as int]);
                assert(!is_dec_digit_char(s@[i as int]));
                assert(!all_dec_digits(dec_body(s@)));
            }
            return None;
        }
        let d = (cu - 48) as u64;
        if acc > (u64::MAX - d) / 10 {
            proof {
                let t = body_ghost@.take(i - start + 1);
                assert(t.drop_last() =~= body_ghost@.take(i - start));
                assert(t.last() == s@[i as int]);
                assert(dec_val(t) == 10 * (acc as int) + (d as int));
                assert(10 * (acc as int) + (d as int) > u64::MAX as int) by (nonlinear_arith)
                    requires
                        acc as int > ((u64::MAX - d) as int) / 10,
                        0 <= d <= 9,
                        acc <= u64::MAX,
                {
                }
                if all_dec_digits(body_ghost@) {
                    assert(all_dec_digits(t)) by {
                        assert(forall|j: int|
                            0 <= j < t.len() ==> t[j] == body_ghost@[j]);
                    }
                    lemma_dec_val_prefix(body_ghost@, i - start + 1);
                    assert(body_ghost@.take(body_ghost@.len() as int) =~= body_ghost@);
                    assert(dec_val(body_ghost@) >= dec_val(t));
                    assert(dec_val(body_ghost@) > u64::MAX as int);
                    assert(!is_i64_string(s@));
                }
            }
            return None;
        }
        proof {
            let t = body_ghost@.take(i - start + 1);
            assert(t.drop_last() =~= body_ghost@.take(i - start));
            assert(t.last() == s@[i as int]);
            assert(is_dec_digit_char(s@[i as int]));
            assert(all_dec_digits(t));
            assert(10 * (acc as int) + (d as int) <= u64::MAX as int) by (nonlinear_arith)
                requires
                    acc as int <= ((u64::MAX - d) as int) / 10,
                    0 <= d <= 9,
            {
            }
        }
        acc = acc * 10 + d;
        i = i + 1;
    }
    proof {
        assert(body_ghost@.take(len - start) =~= body_ghost@);
        assert(acc as int == dec_val(dec_body(s@)));
        assert(all_dec_digits(dec_body(s@)));
        assert(dec_body(s@).len() > 0);
        assert((s@[0] == '-') == neg);
    }
    if neg {
        if acc > 9223372036854775808u64 {
            return None;
        }
        if acc == 9223372036854775808u64 {
            return Some(i64::MIN);
        }
        Some(-(acc as i64))
    } else {
        if acc > 9223372036854775807u64 {
            return None;
        }
        Some(acc as i64)
    }
}

} // verus!
