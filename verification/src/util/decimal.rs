//! Decimal text: writing a number, and reading one back from ASCII digits.

use vstd::prelude::*;
use vstd::string::*;
use vstd::utf8::*;

verus! {

/// Whether `b` is one of the ASCII digits `0`..`9`.
pub open spec fn is_digit(b: u8) -> bool {
    48 <= b <= 57
}

/// Whether every byte of `s` is an ASCII digit.
pub open spec fn all_digits(s: Seq<u8>) -> bool {
    forall|i: int| 0 <= i < s.len() ==> is_digit(#[trigger] s[i])
}

/// The number that the ASCII digits `s` write in base ten, most significant
/// digit first.
pub open spec fn digits_value(s: Seq<u8>) -> nat
    decreases s.len(),
{
    if s.len() == 0 {
        0
    } else {
        digits_value(s.drop_last()) * 10 + (s.last() - 48) as nat
    }
}

/// The base-ten ASCII digits of `n`, without leading zeros.
pub open spec fn digits_of(n: nat) -> Seq<u8>
    decreases n,
{
    if n < 10 {
        seq![(48 + n) as u8]
    } else {
        digits_of(n / 10).push((48 + n % 10) as u8)
    }
}

/// The base-ten text of `n`.
pub open spec fn decimal(n: nat) -> Seq<char>
    decreases n,
{
    if n < 10 {
        seq![((48 + n) as u8) as char]
    } else {
        decimal(n / 10).push(((48 + n % 10) as u8) as char)
    }
}

/// Reading back the digits of a number gives the number.
pub proof fn lemma_digits_round_trip(n: nat)
    ensures
        digits_value(digits_of(n)) == n,
        all_digits(digits_of(n)),
        digits_of(n).len() >= 1,
    decreases n,
{
    reveal_with_fuel(digits_value, 2);
    if n < 10 {
        assert(digits_of(n).drop_last() =~= Seq::<u8>::empty());
    } else {
        lemma_digits_round_trip(n / 10);
        assert(digits_of(n).drop_last() =~= digits_of(n / 10));
    }
}

/// The text of a number is its digits, one ASCII character each.
pub proof fn lemma_decimal_bytes(n: nat)
    ensures
        is_ascii_chars(decimal(n)),
        encode_utf8(decimal(n)) == digits_of(n),
    decreases n,
{
    lemma_decimal_chars(n);
    is_ascii_chars_encode_utf8(decimal(n));
    assert(encode_utf8(decimal(n)) =~= digits_of(n));
}

proof fn lemma_decimal_chars(n: nat)
    ensures
        decimal(n).len() == digits_of(n).len(),
        is_ascii_chars(decimal(n)),
        forall|i: int| 0 <= i < decimal(n).len() ==> #[trigger] decimal(n)[i] as u8 == digits_of(n)[i],
    decreases n,
{
    if n >= 10 {
        lemma_decimal_chars(n / 10);
    }
}

/// The value of a digit string grows by at least a factor of ten per digit
/// read, so a prefix is never worth more than the whole.
pub proof fn lemma_digits_value_prefix(s: Seq<u8>, k: int)
    requires
        all_digits(s),
        0 <= k <= s.len(),
    ensures
        digits_value(s.take(k)) <= digits_value(s),
    decreases s.len(),
{
    if k == s.len() {
        assert(s.take(k) =~= s);
    } else {
        assert(s.drop_last().take(k) =~= s.take(k));
        lemma_digits_value_prefix(s.drop_last(), k);
    }
}

fn push_digit(text: &mut String, d: u64)
    requires
        d < 10,
    ensures
        final(text)@ == old(text)@.push(((48 + d) as u8) as char),
{
    proof {
        reveal_strlit("0");
        reveal_strlit("1");
        reveal_strlit("2");
        reveal_strlit("3");
        reveal_strlit("4");
        reveal_strlit("5");
        reveal_strlit("6");
        reveal_strlit("7");
        reveal_strlit("8");
        reveal_strlit("9");
    }
    let digit: &str = if d == 0 {
        "0"
    } else if d == 1 {
        "1"
    } else if d == 2 {
        "2"
    } else if d == 3 {
        "3"
    } else if d == 4 {
        "4"
    } else if d == 5 {
        "5"
    } else if d == 6 {
        "6"
    } else if d == 7 {
        "7"
    } else if d == 8 {
        "8"
    } else {
        "9"
    };
    assert(digit@ =~= seq![((48 + d) as u8) as char]);
    text.append(digit);
    assert(text@ =~= old(text)@.push(((48 + d) as u8) as char));
}

/// Append the base-ten text of `n` to `text`.
pub fn push_decimal(text: &mut String, n: u64)
    ensures
        final(text)@ == old(text)@ + decimal(n as nat),
    decreases n,
{
    if n >= 10 {
        push_decimal(text, n / 10);
    }
    push_digit(text, n % 10);
    assert(text@ =~= old(text)@ + decimal(n as nat));
}

/// Read the digits `bytes[from..to]` as a `u32`; `None` when the number does
/// not fit.
pub fn read_decimal(bytes: &[u8], from: usize, to: usize) -> (r: Option<u32>)
    requires
        from <= to <= bytes@.len(),
        all_digits(bytes@.subrange(from as int, to as int)),
    ensures
        match r {
            Some(n) => n == digits_value(bytes@.subrange(from as int, to as int)),
            None => digits_value(bytes@.subrange(from as int, to as int)) > u32::MAX,
        },
{
    let ghost whole = bytes@.subrange(from as int, to as int);
    let mut value: u64 = 0;
    let mut i: usize = from;
    proof {
        assert(bytes@.subrange(from as int, from as int) =~= Seq::<u8>::empty());
    }
    while i < to
        invariant
            from <= i <= to <= bytes@.len(),
            whole == bytes@.subrange(from as int, to as int),
            all_digits(whole),
            value == digits_value(bytes@.subrange(from as int, i as int)),
            value <= u32::MAX,
        decreases to - i,
    {
        assert(is_digit(whole[i - from]));
        let d: u64 = (bytes[i] - 48u8) as u64;
        proof {
            let longer = bytes@.subrange(from as int, i + 1);
            assert(longer.drop_last() =~= bytes@.subrange(from as int, i as int));
            assert(longer =~= whole.take(i + 1 - from));
            lemma_digits_value_prefix(whole, i + 1 - from);
        }
        value = value * 10 + d;
        if value > u32::MAX as u64 {
            return None;
        }
        i += 1;
    }
    Some(value as u32)
}

/// A number's text is that of its tenth and then its last digit; a text of
/// several digits does not start with a zero.
pub proof fn law_decimal_digit_by_digit(n: nat)
    ensures
        decimal(n).len() > 0,
        decimal(n).last() as u32 == '0' as u32 + n % 10,
        n < 10 ==> decimal(n).len() == 1,
        n >= 10 ==> decimal(n).drop_last() == decimal(n / 10) && decimal(n)[0] != '0',
    decreases n,
{
    if n >= 10 {
        law_decimal_digit_by_digit(n / 10);
        assert(decimal(n).drop_last() =~= decimal(n / 10));
    }
}

/// Digits read from the left: one more digit makes ten times as much, and that
/// digit.
pub proof fn law_digits_count_tens(s: Seq<u8>, b: u8)
    requires
        all_digits(s),
        is_digit(b),
    ensures
        '0' as u32 <= b <= '9' as u32,
        digits_value(Seq::<u8>::empty()) == 0,
        digits_value(s.push(b)) + '0' as u32 == 10 * digits_value(s) + b,
{
    assert(s.push(b).drop_last() =~= s);
}

} // verus!
