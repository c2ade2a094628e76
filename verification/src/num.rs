//! Decimal numerals: printing `u64`/`i64` values as base-10 strings and
//! parsing them back, with exact specifications of both directions.

use vstd::prelude::*;

verus! {

/// The character standing for one decimal digit.
pub open spec fn spec_digit(d: nat) -> char {
    if d == 0 {
        '0'
    } else if d == 1 {
        '1'
    } else if d == 2 {
        '2'
    } else if d == 3 {
        '3'
    } else if d == 4 {
        '4'
    } else if d == 5 {
        '5'
    } else if d == 6 {
        '6'
    } else if d == 7 {
        '7'
    } else if d == 8 {
        '8'
    } else {
        '9'
    }
}

/// The decimal digits of `n`, most significant first, with no leading zeros
/// (except for `n == 0`, which is the single digit `0`).
pub open spec fn spec_udec(n: nat) -> Seq<char>
    decreases n,
{
    if n < 10 {
        seq![spec_digit(n)]
    } else {
        spec_udec(n / 10).push(spec_digit(n % 10))
    }
}

/// The decimal form of a signed integer: a leading `-` for negative values.
pub open spec fn spec_idec(k: int) -> Seq<char> {
    if k < 0 {
        seq!['-'] + spec_udec((-k) as nat)
    } else {
        spec_udec(k as nat)
    }
}

pub open spec fn is_dec_digit(c: char) -> bool {
    '0' as int <= c as int && c as int <= '9' as int
}

/// The numeric value of one digit character.
pub open spec fn char_digit(c: char) -> int {
    c as int - '0' as int
}

pub open spec fn all_digits(s: Seq<char>) -> bool {
    forall|i: int| 0 <= i < s.len() ==> is_dec_digit(s[i])
}

/// The value of a digit string, most significant digit first.
pub open spec fn spec_udec_val(s: Seq<char>) -> int
    decreases s.len(),
{
    if s.len() == 0 {
        0
    } else {
        spec_udec_val(s.drop_last()) * 10 + char_digit(s.last())
    }
}

/// Parsing an unsigned magnitude: at least one digit, digits only, and a
/// value no greater than `limit`.
pub open spec fn spec_parse_mag(ds: Seq<char>, limit: u64) -> Option<u64> {
    if ds.len() == 0 || !all_digits(ds) {
        None
    } else if spec_udec_val(ds) <= limit {
        Some(spec_udec_val(ds) as u64)
    } else {
        None
    }
}

pub open spec fn spec_parse_u64(s: Seq<char>) -> Option<u64> {
    spec_parse_mag(s, u64::MAX)
}

pub open spec fn spec_parse_i64(s: Seq<char>) -> Option<i64> {
    if s.len() >= 1 && s[0] == '-' {
        match spec_parse_mag(s.skip(1), 0x8000_0000_0000_0000u64) {
            Some(m) => Some((-(m as int)) as i64),
            None => None,
        }
    } else {
        match spec_parse_mag(s, i64::MAX as u64) {
            Some(m) => Some(m as i64),
            None => None,
        }
    }
}

fn digit_str(d: u64) -> (r: &'static str)
    requires
        d < 10,
    ensures
        r@ =~= seq![spec_digit(d as nat)],
{
    proof {
        reveal_strlit("0");
        reveal_strlit("1");
        reveal_strlit("2");
        reveal_strlit("3");
        reveal_strlit("4");
        reveal_strlit("5");
        reveal_strlit("6");
        reveal_strlit("7");
        reveal_strlit("8");
        reveal_strlit("9");
    }
    if d == 0 {
        "0"
    } else if d == 1 {
        "1"
    } else if d == 2 {
        "2"
    } else if d == 3 {
        "3"
    } else if d == 4 {
        "4"
    } else if d == 5 {
        "5"
    } else if d == 6 {
        "6"
    } else if d == 7 {
        "7"
    } else if d == 8 {
        "8"
    } else {
        "9"
    }
}

/// Prints `n` in decimal.
pub fn u64_to_string(n: u64) -> (s: String)
    ensures
        s@ =~= spec_udec(n as nat),
    decreases n,
{
    if n < 10 {
        String::from_str(digit_str(n))
    } else {
        let mut s = u64_to_string(n / 10);
        s.append(digit_str(n % 10));
        proof {
            assert(s@ =~= spec_udec(n as nat));
        }
        s
    }
}

/// Prints `k` in decimal, with a leading `-` when negative.
pub fn i64_to_string(k: i64) -> (s: String)
    ensures
        s@ =~= spec_idec(k as int),
{
    if k >= 0 {
        u64_to_string(k as u64)
    } else {
        let m: u64 = (-(k as i128)) as u64;
        proof {
            reveal_strlit("-");
        }
        let mut s = String::from_str("-");
        let tail = u64_to_string(m);
        s.append(tail.as_str());
        proof {
            assert(s@ =~= spec_idec(k as int));
        }
        s
    }
}

/// Parses the digits of `s` from position `start` on as a magnitude of at
/// most `limit`.
fn parse_mag(s: &str, start: usize, limit: u64) -> (r: Option<u64>)
    requires
        start as int <= s@.len(),
    ensures
        r == spec_parse_mag(s@.skip(start as int), limit),
{
    let ghost ds = s@.skip(start as int);
    let n = s.unicode_len();
    if start == n {
        return None;
    }
    let mut acc: u64 = 0;
    let mut i: usize = start;
    while i < n
        invariant
            start <= i <= n,
            n == s@.len(),
            start < n,
            ds == s@.skip(start as int),
            all_digits(s@.subrange(start as int, i as int)),
            acc == spec_udec_val(s@.subrange(start as int, i as int)),
            acc <= limit,
        decreases n - i,
    {
        let c = s.get_char(i);
        let u = c as u32;
        if u < 48 || u > 57 {
            proof {
                assert(ds[i - start] == s@[i as int]);
                assert(!is_dec_digit(ds[i - start]));
            }
            return None;
        }
        let d: u64 = (u - 48) as u64;
        proof {
            assert(is_dec_digit(s@[i as int]));
            assert(char_digit(s@[i as int]) == d as int);
        }
        let wide: u128 = (acc as u128) * 10 + (d as u128);
        proof {
            assert(s@.subrange(start as int, i + 1 as int).drop_last() =~= s@.subrange(
                start as int,
                i as int,
            ));
            assert(s@.subrange(start as int, i + 1 as int).last() == s@[i as int]);
            assert(wide == spec_udec_val(s@.subrange(start as int, i + 1 as int)));
        }
        if wide > limit as u128 {
            proof {
                if all_digits(ds) {
                    assert(s@.subrange(start as int, i + 1 as int) =~= ds.take(
                        i + 1 - start as int,
                    ));
                    lemma_udec_val_grows(ds, i + 1 - start as int);
                }
            }
            return None;
        }
        acc = wide as u64;
        i = i + 1;
    }
    proof {
        assert(s@.subrange(start as int, n as int) =~= ds);
    }
    Some(acc)
}

/// Parses a decimal `u64`: digits only, no sign.
pub fn parse_u64(s: &str) -> (r: Option<u64>)
    ensures
        r == spec_parse_u64(s@),
{
    proof {
        assert(s@.skip(0) =~= s@);
    }
    parse_mag(s, 0, u64::MAX)
}

/// Parses a decimal `i64`: an optional leading `-`, then digits.
pub fn parse_i64(s: &str) -> (r: Option<i64>)
    ensures
        r == spec_parse_i64(s@),
{
    let n = s.unicode_len();
    if n >= 1 && s.get_char(0) == '-' {
        match parse_mag(s, 1, 0x8000_0000_0000_0000u64) {
            Some(m) => Some((-(m as i128)) as i64),
            None => None,
        }
    } else {
        proof {
            assert(s@.skip(0) =~= s@);
        }
        match parse_mag(s, 0, i64::MAX as u64) {
            Some(m) => Some(m as i64),
            None => None,
        }
    }
}

/// Under `all_digits`, the value of a digit string is nonnegative and no
/// smaller than the value of any of its prefixes.
proof fn lemma_udec_val_nonneg(s: Seq<char>)
    requires
        all_digits(s),
    ensures
        spec_udec_val(s) >= 0,
    decreases s.len(),
{
    if s.len() > 0 {
        assert(all_digits(s.drop_last()));
        lemma_udec_val_nonneg(s.drop_last());
    }
}

proof fn lemma_udec_val_grows(s: Seq<char>, j: int)
    requires
        all_digits(s),
        0 <= j <= s.len(),
    ensures
        spec_udec_val(s.take(j)) <= spec_udec_val(s),
    decreases s.len() - j,
{
    assert(all_digits(s.take(j)));
    lemma_udec_val_nonneg(s.take(j));
    if j < s.len() {
        assert(s.take(j + 1).drop_last() =~= s.take(j));
        assert(s.take(j + 1).last() == s[j]);
        lemma_udec_val_grows(s, j + 1);
    } else {
        assert(s.take(j) =~= s);
    }
}

/// The printed digits of `n` are digits only, start with something other
/// than `-`, and evaluate back to `n`.
pub proof fn lemma_udec_shape(n: nat)
    ensures
        spec_udec(n).len() >= 1,
        all_digits(spec_udec(n)),
        spec_udec_val(spec_udec(n)) == n,
    decreases n,
{
    if n < 10 {
        assert(spec_udec(n) =~= seq![spec_digit(n)]);
        assert(spec_udec(n).drop_last() =~= Seq::<char>::empty());
        assert(char_digit(spec_digit(n)) == n);
        assert(spec_udec(n).last() == spec_digit(n));
        assert(spec_udec_val(Seq::<char>::empty()) == 0);
    } else {
        lemma_udec_shape(n / 10);
        let s = spec_udec(n);
        assert(s.drop_last() =~= spec_udec(n / 10));
        assert(s.last() == spec_digit(n % 10));
        assert(char_digit(spec_digit(n % 10)) == n % 10);
        assert(spec_udec_val(s) == (n / 10) * 10 + n % 10);
        assert(n == (n / 10) * 10 + n % 10);
    }
}

/// Printing then parsing an unsigned value gives the value back.
pub proof fn lemma_u64_round_trip(n: u64)
    ensures
        spec_parse_u64(spec_udec(n as nat)) == Some(n),
{
    lemma_udec_shape(n as nat);
    let s = spec_udec(n as nat);
    assert(is_dec_digit(s[0]));
    assert(s[0] != '-');
}

/// Printing then parsing a signed value gives the value back.
pub proof fn lemma_i64_round_trip(k: i64)
    ensures
        spec_parse_i64(spec_idec(k as int)) == Some(k),
{
    if k >= 0 {
        lemma_udec_shape(k as nat);
        let s = spec_idec(k as int);
        assert(s == spec_udec(k as nat));
        assert(is_dec_digit(s[0]));
        assert(s[0] != '-');
    } else {
        let m = (-(k as int)) as nat;
        lemma_udec_shape(m);
        let s = spec_idec(k as int);
        assert(s == seq!['-'] + spec_udec(m));
        assert(s[0] == '-');
        assert(s.skip(1) =~= spec_udec(m));
        assert(m <= 0x8000_0000_0000_0000u64);
    }
}

} // verus!
