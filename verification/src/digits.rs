//! Decimal text: rendering a byte offset as digits for a `Range` request
//! header, and reading a `Content-Length` header back into a number.

use vstd::prelude::*;

verus! {

/// The digit character for a value below ten.
pub open spec fn digit_char(d: int) -> char
    recommends
        0 <= d <= 9,
{
    if d == 0 {
        '0'
    } else if d == 1 {
        '1'
    } else if d == 2 {
        '2'
    } else if d == 3 {
        '3'
    } else if d == 4 {
        '4'
    } else if d == 5 {
        '5'
    } else if d == 6 {
        '6'
    } else if d == 7 {
        '7'
    } else if d == 8 {
        '8'
    } else {
        '9'
    }
}

/// The decimal rendering of `n`, most significant digit first, no leading
/// zeros (except for zero itself).
pub open spec fn dec_seq(n: int) -> Seq<char>
    recommends
        n >= 0,
    decreases n,
{
    if n < 10 {
        seq![digit_char(n)]
    } else {
        dec_seq(n / 10).push(digit_char(n % 10))
    }
}

/// Whether `c` is a decimal digit.
pub open spec fn is_digit(c: char) -> bool {
    48 <= c as int <= 57
}

/// The numeric value of a digit character.
pub open spec fn digit_val(c: char) -> int {
    c as int - 48
}

/// The number a sequence of digit characters denotes.
pub open spec fn dec_value(s: Seq<char>) -> int
    recommends
        forall|i: int| 0 <= i < s.len() ==> is_digit(s[i]),
    decreases s.len(),
{
    if s.len() == 0 {
        0
    } else {
        dec_value(s.drop_last()) * 10 + digit_val(s.last())
    }
}

/// The digit character of a value below ten, as a one-character string.
fn digit_str(d: u64) -> (r: &'static str)
    requires
        d <= 9,
    ensures
        r@ =~= seq![digit_char(d as int)],
{
    proof {
        reveal_strlit("0");
        reveal_strlit("1");
        reveal_strlit("2");
        reveal_strlit("3");
        reveal_strlit("4");
        reveal_strlit("5");
        reveal_strlit("6");
        reveal_strlit("7");
        reveal_strlit("8");
        reveal_strlit("9");
    }
    match d {
        0 => "0",
        1 => "1",
        2 => "2",
        3 => "3",
        4 => "4",
        5 => "5",
        6 => "6",
        7 => "7",
        8 => "8",
        _ => "9",
    }
}

/// Render `n` in decimal.
pub fn u64_to_dec(n: u64) -> (r: String)
    ensures
        r@ == dec_seq(n as int),
    decreases n,
{
    if n < 10 {
        String::from_str(digit_str(n))
    } else {
        let prefix = u64_to_dec(n / 10);
        let r = prefix.concat(digit_str(n % 10));
        proof {
            assert(r@ =~= dec_seq(n as int));
        }
        r
    }
}

/// Every character a decimal rendering holds is a digit.
proof fn lemma_dec_seq_digits(n: int)
    requires
        n >= 0,
    ensures
        dec_seq(n).len() >= 1,
        forall|i: int| 0 <= i < dec_seq(n).len() ==> is_digit(#[trigger] dec_seq(n)[i]),
    decreases n,
{
    if n < 10 {
    } else {
        lemma_dec_seq_digits(n / 10);
        assert forall|i: int| 0 <= i < dec_seq(n).len() implies is_digit(
            #[trigger] dec_seq(n)[i],
        ) by {
            if i < dec_seq(n / 10).len() {
                assert(dec_seq(n)[i] == dec_seq(n / 10)[i]);
            }
        }
    }
}

/// Reading a rendering back gives the number: a rendering is one or more
/// digit characters denoting the rendered value, so the writer and the
/// reader are inverse.
pub proof fn lemma_dec_round_trip(n: int)
    requires
        n >= 0,
    ensures
        dec_value(dec_seq(n)) == n,
        dec_seq(n).len() >= 1,
        forall|i: int| 0 <= i < dec_seq(n).len() ==> is_digit(#[trigger] dec_seq(n)[i]),
    decreases n,
{
    lemma_dec_seq_digits(n);
    if n < 10 {
        assert(dec_seq(n).drop_last() =~= Seq::<char>::empty());
        assert(dec_value(dec_seq(n)) == dec_value(dec_seq(n).drop_last()) * 10 + digit_val(
            dec_seq(n).last(),
        ));
        assert(dec_value(Seq::<char>::empty()) == 0);
        assert(dec_seq(n).last() == digit_char(n));
        assert(digit_val(digit_char(n)) == n);
    } else {
        lemma_dec_round_trip(n / 10);
        assert(dec_seq(n).drop_last() =~= dec_seq(n / 10));
        assert(dec_seq(n).last() == digit_char(n % 10));
        assert(0 <= n % 10 <= 9 && n == (n / 10) * 10 + n % 10) by {
            vstd::arithmetic::div_mod::lemma_fundamental_div_mod(n, 10);
            vstd::arithmetic::div_mod::lemma_mod_bound(n, 10);
        }
        assert(digit_val(digit_char(n % 10)) == n % 10);
    }
}

/// A longer digit prefix never denotes a smaller number.
proof fn lemma_dec_value_prefix_le(s: Seq<char>, j: int, k: int)
    requires
        0 <= j <= k <= s.len(),
        forall|i: int| 0 <= i < s.len() ==> is_digit(s[i]),
    ensures
        dec_value(s.subrange(0, j)) <= dec_value(s.subrange(0, k)),
    decreases k - j,
{
    if j < k {
        let t = s.subrange(0, k);
        assert(t.drop_last() =~= s.subrange(0, k - 1));
        assert(is_digit(s[k - 1]));
        assert(dec_value(t) == dec_value(s.subrange(0, k - 1)) * 10 + digit_val(s[k - 1]));
        lemma_dec_value_nonneg(s.subrange(0, k - 1));
        lemma_dec_value_prefix_le(s, j, k - 1);
    }
}

/// A digit sequence denotes a nonnegative number.
proof fn lemma_dec_value_nonneg(s: Seq<char>)
    requires
        forall|i: int| 0 <= i < s.len() ==> is_digit(s[i]),
    ensures
        dec_value(s) >= 0,
    decreases s.len(),
{
    if s.len() > 0 {
        assert(s.drop_last() =~= s.subrange(0, s.len() - 1));
        lemma_dec_value_nonneg(s.drop_last());
    }
}

/// Read a decimal number, as a `Content-Length` header carries one. The
/// result is the denoted value exactly when the text is one or more digits
/// and the value fits in 64 bits; anything else reads as `None`.
pub fn parse_u64_dec(s: &str) -> (r: Option<u64>)
    ensures
        r is Some <==> s@.len() >= 1 && (forall|i: int| 0 <= i < s@.len() ==> is_digit(s@[i]))
            && dec_value(s@) <= u64::MAX,
        r is Some ==> r->0 == dec_value(s@),
{
    let len = s.unicode_len();
    if len == 0 {
        return None;
    }
    let mut value: u64 = 0;
    let mut k: usize = 0;
    proof {
        assert(s@.subrange(0, 0) =~= Seq::<char>::empty());
    }
    while k < len
        invariant
            len == s@.len(),
            0 <= k <= len,
            forall|i: int| 0 <= i < k ==> is_digit(s@[i]),
            value == dec_value(s@.subrange(0, k as int)),
        decreases len - k,
    {
        let c = s.get_char(k);
        let d = c as u32;
        if d < 48 || d > 57 {
            return None;
        }
        let dd: u64 = (d - 48) as u64;
        proof {
            assert(s@.subrange(0, k as int + 1).drop_last() =~= s@.subrange(0, k as int));
            assert(s@.subrange(0, k as int + 1).last() == s@[k as int]);
        }
        if value > (u64::MAX - dd) / 10 {
            // The value overflows 64 bits here, so the full text denotes
            // something even larger.
            proof {
                assert(dec_value(s@.subrange(0, k as int + 1)) > u64::MAX);
                assert(s@.subrange(0, s@.len() as int) =~= s@);
                lemma_overflow_digits_or_large(s@, k as int + 1);
            }
            return None;
        }
        value = value * 10 + dd;
        k = k + 1;
    }
    proof {
        assert(s@.subrange(0, s@.len() as int) =~= s@);
    }
    Some(value)
}

/// If some prefix of the text already denotes more than fits, then either a
/// later character is no digit, or the whole text denotes more than fits.
proof fn lemma_overflow_digits_or_large(s: Seq<char>, j: int)
    requires
        0 <= j <= s.len(),
        forall|i: int| 0 <= i < j ==> is_digit(s[i]),
        dec_value(s.subrange(0, j)) > u64::MAX,
    ensures
        !((forall|i: int| 0 <= i < s.len() ==> is_digit(s[i])) && dec_value(s) <= u64::MAX),
{
    if forall|i: int| 0 <= i < s.len() ==> is_digit(s[i]) {
        lemma_dec_value_prefix_le(s, j, s.len() as int);
        assert(s.subrange(0, s.len() as int) =~= s);
    }
}

} // verus!
