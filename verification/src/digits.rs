//! Decimal numerals: parsing a port number from its decimal text and
//! rendering a port number back to text, with the round trip proved.

use vstd::prelude::*;

verus! {

/// A decimal digit character.
pub open spec fn is_digit(c: char) -> bool {
    '0' <= c && c <= '9'
}

/// Numeric value of a decimal digit character (`'0'` is 0, ..., `'9'` is 9).
pub open spec fn digit_value(c: char) -> int {
    c as u32 - 48
}

/// Every character of `s` is a decimal digit.
pub open spec fn all_digits(s: Seq<char>) -> bool {
    forall|i: int| 0 <= i < s.len() ==> is_digit(#[trigger] s[i])
}

/// The value of `s` read as a decimal numeral (0 for the empty sequence).
pub open spec fn dec_value(s: Seq<char>) -> int
    decreases s.len(),
{
    if s.len() == 0 {
        0
    } else {
        dec_value(s.drop_last()) * 10 + digit_value(s.last())
    }
}

/// `s` is a decimal numeral denoting a valid port: nonempty, all digits,
/// and in range for a 16-bit unsigned integer.
pub open spec fn port_str_wf(s: Seq<char>) -> bool {
    &&& s.len() > 0
    &&& all_digits(s)
    &&& dec_value(s) <= 65535
}

/// The digit character for a value in 0..=9.
pub open spec fn digit_char(d: int) -> char {
    if d == 0 {
        '0'
    } else if d == 1 {
        '1'
    } else if d == 2 {
        '2'
    } else if d == 3 {
        '3'
    } else if d == 4 {
        '4'
    } else if d == 5 {
        '5'
    } else if d == 6 {
        '6'
    } else if d == 7 {
        '7'
    } else if d == 8 {
        '8'
    } else {
        '9'
    }
}

/// The decimal numeral of `n`, without leading zeros (`0` is rendered "0").
pub open spec fn dec_of(n: nat) -> Seq<char>
    decreases n,
{
    if n < 10 {
        seq![digit_char(n as int)]
    } else {
        dec_of(n / 10).push(digit_char((n % 10) as int))
    }
}

pub proof fn lemma_digit_char_value(d: int)
    requires
        0 <= d <= 9,
    ensures
        is_digit(digit_char(d)),
        digit_value(digit_char(d)) == d,
{
}

/// A nonempty all-digit numeral has a nonnegative value.
pub proof fn lemma_dec_value_nonneg(s: Seq<char>)
    requires
        all_digits(s),
    ensures
        dec_value(s) >= 0,
    decreases s.len(),
{
    if s.len() > 0 {
        assert(all_digits(s.drop_last()));
        lemma_dec_value_nonneg(s.drop_last());
        assert(is_digit(s.last()));
    }
}

/// Extending an all-digit numeral on the right never decreases its value.
pub proof fn lemma_dec_value_take_le(s: Seq<char>, j: int)
    requires
        all_digits(s),
        0 <= j <= s.len(),
    ensures
        dec_value(s.take(j)) <= dec_value(s),
    decreases s.len() - j,
{
    if j == s.len() {
        assert(s.take(j) =~= s);
    } else {
        assert(s.take(j + 1).drop_last() =~= s.take(j));
        assert(s.take(j + 1).last() == s[j]);
        assert(all_digits(s.take(j)));
        lemma_dec_value_nonneg(s.take(j));
        assert(is_digit(s[j]));
        assert(dec_value(s.take(j + 1)) == dec_value(s.take(j)) * 10 + digit_value(s[j]));
        lemma_dec_value_take_le(s, j + 1);
    }
}

/// The rendered numeral is nonempty, consists of digits, and reads back
/// to the number it was rendered from.
pub proof fn lemma_dec_of_value(n: nat)
    ensures
        dec_of(n).len() >= 1,
        all_digits(dec_of(n)),
        dec_value(dec_of(n)) == n,
    decreases n,
{
    if n < 10 {
        lemma_digit_char_value(n as int);
        let s0 = dec_of(n);
        assert(s0.drop_last() =~= Seq::<char>::empty());
        assert(dec_value(s0.drop_last()) == 0);
        assert(s0.last() == digit_char(n as int));
        assert(dec_value(s0) == dec_value(s0.drop_last()) * 10 + digit_value(s0.last()));
    } else {
        lemma_dec_of_value(n / 10);
        lemma_digit_char_value((n % 10) as int);
        let s = dec_of(n / 10);
        let c = digit_char((n % 10) as int);
        assert(s.push(c).drop_last() =~= s);
        assert(s.push(c).last() == c);
        assert(forall|i: int| 0 <= i < s.push(c).len() ==> is_digit(#[trigger] s.push(c)[i]));
        assert(dec_value(s.push(c)) == (n / 10) * 10 + n % 10);
        assert((n / 10) * 10 + n % 10 == n) by (nonlinear_arith);
    }
}

/// No character of an all-digit sequence equals a non-digit character.
pub proof fn lemma_digits_avoid(s: Seq<char>, c: char)
    requires
        all_digits(s),
        !is_digit(c),
    ensures
        forall|i: int| 0 <= i < s.len() ==> s[i] != c,
{
}

/// The one-character string of a digit value in 0..=9.
fn digit_str(d: u16) -> (r: &'static str)
    requires
        d <= 9,
    ensures
        r@ =~= seq![digit_char(d as int)],
{
    proof {
        reveal_strlit("0");
        reveal_strlit("1");
        reveal_strlit("2");
        reveal_strlit("3");
        reveal_strlit("4");
        reveal_strlit("5");
        reveal_strlit("6");
        reveal_strlit("7");
        reveal_strlit("8");
        reveal_strlit("9");
    }
    match d {
        0 => "0",
        1 => "1",
        2 => "2",
        3 => "3",
        4 => "4",
        5 => "5",
        6 => "6",
        7 => "7",
        8 => "8",
        _ => "9",
    }
}

/// Renders `n` as its decimal numeral, without leading zeros.
pub fn u16_to_string(n: u16) -> (r: String)
    ensures
        r@ == dec_of(n as nat),
    decreases n,
{
    if n < 10 {
        String::from_str(digit_str(n))
    } else {
        let prefix = u16_to_string(n / 10);
        let r = prefix.concat(digit_str(n % 10));
        proof {
            assert(dec_of((n / 10) as nat).push(digit_char((n % 10) as int)) =~= dec_of(
                (n / 10) as nat,
            ) + seq![digit_char((n % 10) as int)]);
            assert(r@ =~= dec_of(n as nat));
        }
        r
    }
}

/// Parses `s` as a decimal port number.  Returns `Some` exactly when `s`
/// is a nonempty string of decimal digits whose value fits in a `u16`,
/// and then returns that value.
pub fn parse_port(s: &str) -> (r: Option<u16>)
    ensures
        r is Some <==> port_str_wf(s@),
        r matches Some(p) ==> p as int == dec_value(s@),
{
    let n = s.unicode_len();
    if n == 0 {
        return None;
    }
    let mut acc: u32 = 0;
    let mut i: usize = 0;
    while i < n
        invariant
            0 < n == s@.len(),
            0 <= i <= n,
            all_digits(s@.take(i as int)),
            acc == dec_value(s@.take(i as int)),
            acc <= 65535,
        decreases n - i,
    {
        let c = s.get_char(i);
        if !('0' <= c && c <= '9') {
            assert(!is_digit(s@[i as int]));
            return None;
        }
        let d: u32 = c as u32 - 48;
        let next: u32 = acc * 10 + d;
        proof {
            assert(s@.take(i + 1).drop_last() =~= s@.take(i as int));
            assert(s@.take(i + 1).last() == s@[i as int]);
            assert(dec_value(s@.take(i + 1)) == acc * 10 + digit_value(s@[i as int]));
        }
        if next > 65535 {
            proof {
                if all_digits(s@) {
                    lemma_dec_value_take_le(s@, i + 1);
                }
            }
            return None;
        }
        acc = next;
        i = i + 1;
    }
    proof {
        assert(s@.take(n as int) =~= s@);
    }
    Some(acc as u16)
}

} // verus!
