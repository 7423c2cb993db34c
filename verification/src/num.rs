//! Decimal text for the integer fields of the record.
//!
//! Numbers are written without leading zeros and with a leading `-` for
//! negative values; parsing accepts exactly that canonical form, so every
//! number has one text and every text at most one number.

use vstd::prelude::*;

verus! {

pub open spec fn is_digit(c: char) -> bool {
    c == '0' || c == '1' || c == '2' || c == '3' || c == '4' || c == '5' || c == '6' || c == '7'
        || c == '8' || c == '9'
}

pub open spec fn char_of_digit(d: int) -> char {
    if d == 0 {
        '0'
    } else if d == 1 {
        '1'
    } else if d == 2 {
        '2'
    } else if d == 3 {
        '3'
    } else if d == 4 {
        '4'
    } else if d == 5 {
        '5'
    } else if d == 6 {
        '6'
    } else if d == 7 {
        '7'
    } else if d == 8 {
        '8'
    } else {
        '9'
    }
}

pub open spec fn digit_of_char(c: char) -> int {
    if c == '0' {
        0
    } else if c == '1' {
        1
    } else if c == '2' {
        2
    } else if c == '3' {
        3
    } else if c == '4' {
        4
    } else if c == '5' {
        5
    } else if c == '6' {
        6
    } else if c == '7' {
        7
    } else if c == '8' {
        8
    } else {
        9
    }
}

pub open spec fn all_digits(s: Seq<char>) -> bool {
    forall|i: int| 0 <= i < s.len() ==> is_digit(s[i])
}

/// The value of a digit string, most significant digit first.
pub open spec fn digits_val(s: Seq<char>) -> int
    decreases s.len(),
{
    if s.len() == 0 {
        0
    } else {
        digits_val(s.drop_last()) * 10 + digit_of_char(s.last())
    }
}

/// The canonical digit string of a natural number: no leading zeros.
pub open spec fn enc_nat(n: nat) -> Seq<char>
    decreases n,
{
    if n < 10 {
        seq![char_of_digit(n as int)]
    } else {
        enc_nat(n / 10) + seq![char_of_digit((n % 10) as int)]
    }
}

/// The canonical text of an integer: a `-` before the digits when negative.
pub open spec fn enc_int(v: int) -> Seq<char> {
    if v < 0 {
        seq!['-'] + enc_nat((-v) as nat)
    } else {
        enc_nat(v as nat)
    }
}

pub open spec fn is_canon_nat(s: Seq<char>) -> bool {
    s.len() > 0 && all_digits(s) && (s.len() > 1 ==> s[0] != '0')
}

/// Parse a canonical digit string; anything else is rejected.
pub open spec fn parse_nat(s: Seq<char>) -> Option<int> {
    if is_canon_nat(s) {
        Some(digits_val(s))
    } else {
        None
    }
}

/// Parse an integer within `[lo, hi]`; `-0` and out-of-range values are
/// rejected.
pub open spec fn parse_int(s: Seq<char>, lo: int, hi: int) -> Option<int> {
    if s.len() > 0 && s[0] == '-' {
        match parse_nat(s.skip(1)) {
            Some(n) => if n > 0 && -n >= lo {
                Some(-n)
            } else {
                None
            },
            None => None,
        }
    } else {
        match parse_nat(s) {
            Some(n) => if n <= hi {
                Some(n)
            } else {
                None
            },
            None => None,
        }
    }
}

pub open spec fn pow10(k: nat) -> int
    decreases k,
{
    if k == 0 {
        1
    } else {
        10 * pow10((k - 1) as nat)
    }
}

pub proof fn lemma_pow10_pos(k: nat)
    ensures
        pow10(k) >= 1,
    decreases k,
{
    if k > 0 {
        lemma_pow10_pos((k - 1) as nat);
    }
}

pub proof fn lemma_pow10_mono(a: nat, b: nat)
    requires
        a <= b,
    ensures
        pow10(a) <= pow10(b),
    decreases b,
{
    if a < b {
        lemma_pow10_mono(a, (b - 1) as nat);
        lemma_pow10_pos((b - 1) as nat);
    }
}

/// The canonical digit string of `n` really is canonical and has value `n`.
pub proof fn lemma_enc_nat(n: nat)
    ensures
        enc_nat(n).len() >= 1,
        all_digits(enc_nat(n)),
        n >= 1 ==> enc_nat(n)[0] != '0',
        digits_val(enc_nat(n)) == n,
        is_canon_nat(enc_nat(n)),
    decreases n,
{
    if n < 10 {
        let s = seq![char_of_digit(n as int)];
        assert(enc_nat(n) =~= s);
        assert(s.drop_last() =~= Seq::<char>::empty());
        assert(s.last() == char_of_digit(n as int));
        assert(digits_val(Seq::<char>::empty()) == 0);
        assert(digits_val(enc_nat(n)) == digit_of_char(char_of_digit(n as int)));
    } else {
        lemma_enc_nat(n / 10);
        let pre = enc_nat(n / 10);
        let s = enc_nat(n);
        assert(s == pre + seq![char_of_digit((n % 10) as int)]);
        assert(s.drop_last() =~= pre);
        assert(s.last() == char_of_digit((n % 10) as int));
        assert(s[0] == pre[0]);
        assert(digits_val(s) == digits_val(pre) * 10 + digit_of_char(char_of_digit((n % 10) as int)));
        assert(digits_val(s) == (n / 10) * 10 + n % 10);
    }
}

/// A digit string never contains a character that is not a digit.
pub proof fn lemma_all_digits_not_contains(s: Seq<char>, c: char)
    requires
        all_digits(s),
        !is_digit(c),
    ensures
        !s.contains(c),
{
    if s.contains(c) {
        let i = choose|i: int| 0 <= i < s.len() && s[i] == c;
        assert(is_digit(s[i]));
    }
}

/// The text of an integer contains only digits and a possible leading `-`.
pub proof fn lemma_enc_int_not_contains(v: int, c: char)
    requires
        !is_digit(c),
        c != '-',
    ensures
        !enc_int(v).contains(c),
{
    if v < 0 {
        lemma_enc_nat((-v) as nat);
        lemma_all_digits_not_contains(enc_nat((-v) as nat), c);
        if enc_int(v).contains(c) {
            let i = choose|i: int| 0 <= i < enc_int(v).len() && enc_int(v)[i] == c;
            if i == 0 {
                assert(enc_int(v)[0] == '-');
            } else {
                assert(enc_int(v)[i] == enc_nat((-v) as nat)[i - 1]);
                assert(enc_nat((-v) as nat).contains(c));
            }
        }
    } else {
        lemma_enc_nat(v as nat);
        lemma_all_digits_not_contains(enc_nat(v as nat), c);
    }
}

/// Parsing the canonical text of an in-range integer gives that integer.
pub proof fn lemma_parse_int_enc(v: int, lo: int, hi: int)
    requires
        lo <= v <= hi,
    ensures
        parse_int(enc_int(v), lo, hi) == Some(v),
{
    if v < 0 {
        lemma_enc_nat((-v) as nat);
        let s = enc_int(v);
        assert(s[0] == '-');
        assert(s.skip(1) =~= enc_nat((-v) as nat));
    } else {
        lemma_enc_nat(v as nat);
        let s = enc_int(v);
        assert(is_digit(s[0]));
        assert(s[0] != '-');
    }
}

/// A digit string of length `k` has value below `10^k`.
pub proof fn lemma_digits_val_bounds(s: Seq<char>)
    requires
        all_digits(s),
    ensures
        0 <= digits_val(s) < pow10(s.len()),
    decreases s.len(),
{
    if s.len() == 0 {
    } else {
        assert(all_digits(s.drop_last())) by {
            assert(forall|i: int|
                0 <= i < s.drop_last().len() ==> s.drop_last()[i] == s[i] && is_digit(s[i]));
        }
        lemma_digits_val_bounds(s.drop_last());
        assert(is_digit(s.last()));
        assert(0 <= digit_of_char(s.last()) <= 9);
    }
}

/// A canonical digit string of length `k >= 2` has value at least `10^(k-1)`.
pub proof fn lemma_canon_lower(s: Seq<char>)
    requires
        is_canon_nat(s),
        s.len() >= 2,
    ensures
        digits_val(s) >= pow10((s.len() - 1) as nat),
    decreases s.len(),
{
    let d = s.drop_last();
    assert(all_digits(d)) by {
        assert(forall|i: int| 0 <= i < d.len() ==> d[i] == s[i] && is_digit(s[i]));
    }
    assert(d[0] == s[0]);
    assert(0 <= digit_of_char(s.last()));
    if s.len() == 2 {
        assert(is_digit(d[0]) && d[0] != '0');
        assert(digit_of_char(d[0]) >= 1);
        assert(d.drop_last() =~= Seq::<char>::empty());
        assert(d.last() == d[0]);
        assert(digits_val(Seq::<char>::empty()) == 0);
        assert(digits_val(d) == digit_of_char(d[0]));
    } else {
        lemma_canon_lower(d);
        lemma_pow10_pos((d.len() - 1) as nat);
    }
}

/// Map a character to its digit value, if it is one.
pub fn digit_of(c: char) -> (r: Option<u8>)
    ensures
        r is Some <==> is_digit(c),
        r matches Some(d) ==> d < 10 && digit_of_char(c) == d as int,
{
    if c == '0' {
        Some(0)
    } else if c == '1' {
        Some(1)
    } else if c == '2' {
        Some(2)
    } else if c == '3' {
        Some(3)
    } else if c == '4' {
        Some(4)
    } else if c == '5' {
        Some(5)
    } else if c == '6' {
        Some(6)
    } else if c == '7' {
        Some(7)
    } else if c == '8' {
        Some(8)
    } else if c == '9' {
        Some(9)
    } else {
        None
    }
}

/// Append one decimal digit to `out`.
pub fn push_digit(out: &mut String, d: u8)
    requires
        d < 10,
    ensures
        final(out)@ == old(out)@ + seq![char_of_digit(d as int)],
{
    proof {
        reveal_strlit("0");
        reveal_strlit("1");
        reveal_strlit("2");
        reveal_strlit("3");
        reveal_strlit("4");
        reveal_strlit("5");
        reveal_strlit("6");
        reveal_strlit("7");
        reveal_strlit("8");
        reveal_strlit("9");
    }
    if d == 0 {
        out.append("0");
        assert("0"@ =~= seq![char_of_digit(0)]);
    } else if d == 1 {
        out.append("1");
        assert("1"@ =~= seq![char_of_digit(1)]);
    } else if d == 2 {
        out.append("2");
        assert("2"@ =~= seq![char_of_digit(2)]);
    } else if d == 3 {
        out.append("3");
        assert("3"@ =~= seq![char_of_digit(3)]);
    } else if d == 4 {
        out.append("4");
        assert("4"@ =~= seq![char_of_digit(4)]);
    } else if d == 5 {
        out.append("5");
        assert("5"@ =~= seq![char_of_digit(5)]);
    } else if d == 6 {
        out.append("6");
        assert("6"@ =~= seq![char_of_digit(6)]);
    } else if d == 7 {
        out.append("7");
        assert("7"@ =~= seq![char_of_digit(7)]);
    } else if d == 8 {
        out.append("8");
        assert("8"@ =~= seq![char_of_digit(8)]);
    } else {
        out.append("9");
        assert("9"@ =~= seq![char_of_digit(9)]);
    }
}

/// Append the canonical digits of `n` to `out`.
pub fn push_u64(out: &mut String, n: u64)
    ensures
        final(out)@ == old(out)@ + enc_nat(n as nat),
    decreases n,
{
    if n < 10 {
        push_digit(out, n as u8);
    } else {
        push_u64(out, n / 10);
        let ghost mid = out@;
        push_digit(out, (n % 10) as u8);
        assert(out@ =~= old(out)@ + (enc_nat((n / 10) as nat) + seq![char_of_digit((n % 10) as int)]));
    }
}

/// Append the canonical text of `v` to `out`.
pub fn push_i64(out: &mut String, v: i64)
    requires
        v > i64::MIN,
    ensures
        final(out)@ == old(out)@ + enc_int(v as int),
{
    if v < 0 {
        proof {
            reveal_strlit("-");
        }
        out.append("-");
        assert("-"@ =~= seq!['-']);
        push_u64(out, (-v) as u64);
        assert(out@ =~= old(out)@ + (seq!['-'] + enc_nat((-(v as int)) as nat)));
    } else {
        push_u64(out, v as u64);
    }
}

/// Parse a canonical digit string; values of eleven digits or more are
/// reported as absent, and are then above any bound the callers use.
pub fn parse_nat_str(t: &str) -> (r: Option<u64>)
    ensures
        r matches Some(n) ==> parse_nat(t@) == Some(n as int) && n < 10000000000,
        r is None ==> (parse_nat(t@) is None || parse_nat(t@).unwrap() >= 10000000000),
{
    let len = t.unicode_len();
    if len == 0 {
        return None;
    }
    if len > 10 {
        proof {
            if is_canon_nat(t@) {
                lemma_canon_lower(t@);
                lemma_pow10_mono(10, (t@.len() - 1) as nat);
                reveal_with_fuel(pow10, 11);
            }
        }
        return None;
    }
    let mut i: usize = 0;
    let mut acc: u64 = 0;
    proof {
        reveal_with_fuel(pow10, 11);
    }
    if len > 1 && t.get_char(0) == '0' {
        return None;
    }
    while i < len
        invariant
            i <= len,
            len == t@.len(),
            1 <= len <= 10,
            all_digits(t@.subrange(0, i as int)),
            acc == digits_val(t@.subrange(0, i as int)),
            acc < pow10(i as nat),
            pow10(10) == 10000000000,
            len > 1 ==> t@[0] != '0',
        decreases len - i,
    {
        let c = t.get_char(i);
        match digit_of(c) {
            None => {
                proof {
                    assert(!is_digit(t@[i as int]));
                    assert(!all_digits(t@));
                }
                return None;
            },
            Some(d) => {
                proof {
                    lemma_pow10_mono(i as nat, 9);
                    reveal_with_fuel(pow10, 11);
                    assert(t@.subrange(0, i + 1).drop_last() =~= t@.subrange(0, i as int));
                    assert(t@.subrange(0, i + 1).last() == t@[i as int]);
                    assert(all_digits(t@.subrange(0, i + 1))) by {
                        assert(forall|j: int|
                            0 <= j < i + 1 ==> t@.subrange(0, i + 1)[j] == t@[j]);
                        assert(forall|j: int|
                            0 <= j < i ==> t@.subrange(0, i as int)[j] == t@[j]);
                    }
                }
                acc = acc * 10 + (d as u64);
                i = i + 1;
            },
        }
    }
    proof {
        assert(t@.subrange(0, len as int) =~= t@);
        assert(is_canon_nat(t@));
    }
    Some(acc)
}

/// Parse a canonical integer within `[lo, hi]`.
pub fn parse_int_str(t: &str, lo: i64, hi: i64) -> (r: Option<i64>)
    requires
        -10000000000 < lo <= 0,
        0 <= hi < 10000000000,
    ensures
        r matches Some(v) ==> parse_int(t@, lo as int, hi as int) == Some(v as int) && lo <= v
            <= hi,
        r is None ==> parse_int(t@, lo as int, hi as int) is None,
{
    let len = t.unicode_len();
    if len > 0 && t.get_char(0) == '-' {
        let rest = t.substring_char(1, len);
        proof {
            assert(rest@ =~= t@.skip(1));
        }
        match parse_nat_str(rest) {
            None => {
                proof {
                    if parse_nat(rest@) is Some {
                        assert(parse_nat(rest@).unwrap() >= 10000000000);
                    }
                }
                None
            },
            Some(n) => {
                let neg_lo = -lo;
                if n > 0 && n <= neg_lo as u64 {
                    Some(-(n as i64))
                } else {
                    None
                }
            },
        }
    } else {
        match parse_nat_str(t) {
            None => {
                proof {
                    if parse_nat(t@) is Some {
                        assert(parse_nat(t@).unwrap() >= 10000000000);
                    }
                }
                None
            },
            Some(n) => {
                if n <= hi as u64 {
                    Some(n as i64)
                } else {
                    None
                }
            },
        }
    }
}

} // verus!
