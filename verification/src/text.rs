use vstd::prelude::*;
use vstd::string::*;

verus! {

/// The character of a digit below 16: `0`-`9`, then `A`-`F`.
pub open spec fn digit_char(d: nat) -> char {
    if d < 10 {
        (('0' as u8) + d) as char
    } else {
        (('A' as u8) + (d - 10)) as char
    }
}

/// The decimal digits of `n`, without leading zeros.
pub open spec fn decimal(n: nat) -> Seq<char>
    decreases n,
{
    if n < 10 {
        seq![digit_char(n)]
    } else {
        decimal(n / 10).push(digit_char(n % 10))
    }
}

/// The last `width` uppercase hexadecimal digits of `n`, leading zeros included.
pub open spec fn hex_digits(n: nat, width: nat) -> Seq<char>
    decreases width,
{
    if width == 0 {
        Seq::empty()
    } else {
        hex_digits(n / 16, (width - 1) as nat).push(digit_char(n % 16))
    }
}

/// The one-character string of a digit below 16.
fn digit_str(d: u64) -> (s: &'static str)
    requires
        d < 16,
    ensures
        s@ == seq![digit_char(d as nat)],
{
    proof {
        reveal_strlit("0");
        reveal_strlit("1");
        reveal_strlit("2");
        reveal_strlit("3");
        reveal_strlit("4");
        reveal_strlit("5");
        reveal_strlit("6");
        reveal_strlit("7");
        reveal_strlit("8");
        reveal_strlit("9");
        reveal_strlit("A");
        reveal_strlit("B");
        reveal_strlit("C");
        reveal_strlit("D");
        reveal_strlit("E");
        reveal_strlit("F");
    }
    let s = match d {
        0 => "0",
        1 => "1",
        2 => "2",
        3 => "3",
        4 => "4",
        5 => "5",
        6 => "6",
        7 => "7",
        8 => "8",
        9 => "9",
        10 => "A",
        11 => "B",
        12 => "C",
        13 => "D",
        14 => "E",
        _ => "F",
    };
    assert(s@ =~= seq![digit_char(d as nat)]);
    s
}

/// Append the decimal digits of `n`.
pub fn append_decimal(s: &mut String, n: u64)
    ensures
        final(s)@ == old(s)@ + decimal(n as nat),
    decreases n,
{
    if n >= 10 {
        append_decimal(s, n / 10);
    }
    s.append(digit_str(n % 10));
    assert(old(s)@ + decimal(n as nat) =~= if n >= 10 {
        old(s)@ + decimal((n / 10) as nat) + seq![digit_char((n % 10) as nat)]
    } else {
        old(s)@ + seq![digit_char((n % 10) as nat)]
    });
}

/// Append the last `width` uppercase hexadecimal digits of `n`.
pub fn append_hex(s: &mut String, n: u64, width: u64)
    ensures
        final(s)@ == old(s)@ + hex_digits(n as nat, width as nat),
    decreases width,
{
    if width > 0 {
        append_hex(s, n / 16, width - 1);
        s.append(digit_str(n % 16));
        assert(old(s)@ + hex_digits(n as nat, width as nat) =~= old(s)@ + hex_digits(
            (n / 16) as nat,
            (width - 1) as nat,
        ) + seq![digit_char((n % 16) as nat)]);
    } else {
        assert(old(s)@ + hex_digits(n as nat, width as nat) =~= old(s)@);
    }
}

/// Whether `c` is a digit of the given base: `0`-`9`, and for base 16 also `A`-`F`.
pub open spec fn is_digit_in(c: char, base: nat) -> bool {
    ('0' <= c <= '9' && (c as int) - ('0' as int) < base) || (base == 16 && 'A' <= c <= 'F')
}

/// The value of a digit character.
pub open spec fn digit_value(c: char) -> int {
    if '0' <= c <= '9' {
        (c as int) - ('0' as int)
    } else {
        (c as int) - ('A' as int) + 10
    }
}

/// The number that a string of digits writes in the given base.
pub open spec fn digits_value(s: Seq<char>, base: nat) -> int
    decreases s.len(),
{
    if s.len() == 0 {
        0
    } else {
        digits_value(s.drop_last(), base) * base + digit_value(s.last())
    }
}

proof fn lemma_digit_char(d: nat)
    requires
        d < 16,
    ensures
        digit_value(digit_char(d)) == d,
        d < 10 ==> is_digit_in(digit_char(d), 10),
        is_digit_in(digit_char(d), 16),
{
    if d < 10 {
        assert((('0' as u8) + d) as char as int == 48 + d);
    } else {
        assert((('A' as u8) + (d - 10)) as char as int == 65 + d - 10);
    }
}

/// The decimal text of a number is a non-empty string of decimal digits, without a leading
/// zero unless the number is zero, that reads back as the number.
pub proof fn lemma_decimal_reads_back(n: nat)
    ensures
        decimal(n).len() >= 1,
        forall|i: int| 0 <= i < decimal(n).len() ==> #[trigger] is_digit_in(decimal(n)[i], 10),
        digits_value(decimal(n), 10) == n,
        decimal(n)[0] == '0' ==> n == 0,
    decreases n,
{
    lemma_digit_char(n % 10);
    if n >= 10 {
        lemma_decimal_reads_back(n / 10);
        let s = decimal(n);
        assert(s.drop_last() == decimal(n / 10));
        assert forall|i: int| 0 <= i < s.len() implies #[trigger] is_digit_in(s[i], 10) by {
            if i < s.len() - 1 {
                assert(s[i] == decimal(n / 10)[i]);
            }
        }
        assert(s[0] == decimal(n / 10)[0]);
        assert(s.last() == digit_char(n % 10));
        assert(digits_value(s, 10) == digits_value(decimal(n / 10), 10) * 10 + digit_value(
            digit_char(n % 10),
        ));
        assert(n == (n / 10) * 10 + n % 10);
    } else {
        let s = decimal(n);
        assert(s.drop_last() =~= Seq::<char>::empty());
        assert(digits_value(s, 10) == digits_value(s.drop_last(), 10) * 10 + digit_value(s.last()));
    }
}

/// The hexadecimal text of a number in `width` digits is exactly `width` uppercase hexadecimal
/// digits that read back as the number modulo 16 to the power `width`.
pub proof fn lemma_hex_reads_back(n: nat, width: nat)
    ensures
        hex_digits(n, width).len() == width,
        forall|i: int|
            0 <= i < hex_digits(n, width).len() ==> #[trigger] is_digit_in(hex_digits(n, width)[i], 16),
        digits_value(hex_digits(n, width), 16) == n % vstd::arithmetic::power::pow(16, width) as nat,
    decreases width,
{
    reveal(vstd::arithmetic::power::pow);
    vstd::arithmetic::power::lemma_pow_positive(16, width);
    lemma_digit_char(n % 16);
    if width > 0 {
        lemma_hex_reads_back(n / 16, (width - 1) as nat);
        let s = hex_digits(n, width);
        assert(s.drop_last() == hex_digits(n / 16, (width - 1) as nat));
        assert forall|i: int| 0 <= i < s.len() implies #[trigger] is_digit_in(s[i], 16) by {
            if i < s.len() - 1 {
                assert(s[i] == hex_digits(n / 16, (width - 1) as nat)[i]);
            }
        }
        let p = vstd::arithmetic::power::pow(16, (width - 1) as nat);
        vstd::arithmetic::power::lemma_pow_positive(16, (width - 1) as nat);
        assert(vstd::arithmetic::power::pow(16, width) == 16 * p);
        vstd::arithmetic::div_mod::lemma_mod_breakdown(n as int, 16, p);
    } else {
        assert(vstd::arithmetic::power::pow(16, 0) == 1);
    }
}

} // verus!
