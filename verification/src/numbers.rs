//! Integers written in decimal and hexadecimal, and read back.

use crate::text;
use vstd::prelude::*;

verus! {

/// The character of a decimal or upper-case hexadecimal digit.
pub open spec fn digit_char(digit: nat) -> char {
    if digit < 10 {
        ('0' as u32 + digit) as char
    } else {
        ('A' as u32 + (digit - 10)) as char
    }
}

/// The value of `c` as a digit of a number in base `radix`, at most 16.
pub open spec fn digit_value(c: char, radix: nat) -> Option<nat> {
    let value = if '0' <= c <= '9' {
        (c as u32 - '0' as u32) as nat
    } else if 'a' <= c <= 'f' {
        (c as u32 - 'a' as u32 + 10) as nat
    } else if 'A' <= c <= 'F' {
        (c as u32 - 'A' as u32 + 10) as nat
    } else {
        radix
    };
    if value < radix {
        Some(value)
    } else {
        None
    }
}

/// The number that the digits `s` write in base `radix`; `None` where one of
/// them is no digit. No digits write 0.
pub open spec fn digits_value(s: Seq<char>, radix: nat) -> Option<nat>
    decreases s.len(),
{
    if s.len() == 0 {
        Some(0)
    } else {
        match (digits_value(s.drop_last(), radix), digit_value(s.last(), radix)) {
            (Some(high), Some(low)) => Some(high * radix + low),
            _ => None,
        }
    }
}

/// The number that `s` writes in base `radix`: an optional `+` and then one
/// digit or more.
pub open spec fn unsigned_value(s: Seq<char>, radix: nat) -> Option<nat> {
    let digits = if s.len() > 0 && s[0] == '+' {
        s.drop_first()
    } else {
        s
    };
    if digits.len() == 0 {
        None
    } else {
        digits_value(digits, radix)
    }
}

/// The unsigned number up to `max` that `s` writes in base `radix`.
pub open spec fn unsigned_up_to(s: Seq<char>, radix: nat, max: nat) -> Option<nat> {
    match unsigned_value(s, radix) {
        Some(value) if value <= max => Some(value),
        _ => None,
    }
}

/// The number up to `max` that `s` writes in base `radix`: one digit or more.
pub open spec fn digits_up_to(s: Seq<char>, radix: nat, max: nat) -> Option<nat> {
    if s.len() == 0 {
        None
    } else {
        match digits_value(s, radix) {
            Some(value) if value <= max => Some(value),
            _ => None,
        }
    }
}

/// The number that `s` writes in decimal: an optional sign and then one digit
/// or more.
pub open spec fn signed_value(s: Seq<char>) -> Option<int> {
    if s.len() > 1 && s[0] == '-' {
        match digits_value(s.drop_first(), 10) {
            Some(magnitude) => Some(-(magnitude as int)),
            None => None,
        }
    } else {
        match unsigned_value(s, 10) {
            Some(value) => Some(value as int),
            None => None,
        }
    }
}

/// The number between `min` and `max` that `s` writes in decimal.
pub open spec fn signed_between(s: Seq<char>, min: int, max: int) -> Option<int> {
    match signed_value(s) {
        Some(value) if min <= value <= max => Some(value),
        _ => None,
    }
}

/// The unsigned number up to `max` that `s` writes: in hexadecimal digits after
/// `0x` or `0X`, else in decimal.
pub open spec fn hex_or_decimal(s: Seq<char>, max: nat) -> Option<nat> {
    if s.len() >= 2 && s[0] == '0' && (s[1] == 'x' || s[1] == 'X') {
        digits_up_to(s.subrange(2, s.len() as int), 16, max)
    } else {
        unsigned_up_to(s, 10, max)
    }
}

/// The value of `c` as a digit in base `radix`.
pub fn char_digit(c: char, radix: u32) -> (value: Option<u32>)
    requires
        radix <= 16,
    ensures
        value is Some <==> digit_value(c, radix as nat) is Some,
        value matches Some(v) ==> digit_value(c, radix as nat) == Some(v as nat),
{
    let u: u32 = c as u32;
    let value: u32 = if 0x30 <= u && u <= 0x39 {
        u - 0x30
    } else if 0x61 <= u && u <= 0x66 {
        u - 0x61 + 10
    } else if 0x41 <= u && u <= 0x46 {
        u - 0x41 + 10
    } else {
        radix
    };
    if value < radix {
        Some(value)
    } else {
        None
    }
}

/// More digits never make the number smaller, and a wrong digit stays wrong.
proof fn lemma_digits_value_prefix(s: Seq<char>, i: int, radix: nat)
    requires
        0 <= i <= s.len(),
        radix >= 1,
        digits_value(s, radix) is Some,
    ensures
        digits_value(s.take(i), radix) is Some,
        digits_value(s.take(i), radix)->0 <= digits_value(s, radix)->0,
    decreases s.len() - i,
{
    if i == s.len() {
        assert(s.take(i) =~= s);
    } else {
        lemma_digits_value_prefix(s, i + 1, radix);
        assert(s.take(i + 1).drop_last() =~= s.take(i));
        let high = digits_value(s.take(i), radix)->0;
        assert(high * radix >= high) by (nonlinear_arith)
            requires
                radix >= 1,
                high >= 0,
        ;
    }
}

/// Reads `chars[from..]` as digits in base `radix`.
fn parse_digits(chars: &[char], from: usize, radix: u32, max: u64) -> (value: Option<u64>)
    requires
        from <= chars@.len(),
        1 <= radix <= 16,
    ensures
        value matches Some(v) ==> v <= max && digits_value(
            chars@.subrange(from as int, chars@.len() as int),
            radix as nat,
        ) == Some(v as nat),
        value is None ==> (digits_value(
            chars@.subrange(from as int, chars@.len() as int),
            radix as nat,
        ) is None || digits_value(
            chars@.subrange(from as int, chars@.len() as int),
            radix as nat,
        )->0 > max),
{
    let ghost digits = chars@.subrange(from as int, chars@.len() as int);
    let mut value: u64 = 0;
    let mut i: usize = from;
    while i < chars.len()
        invariant
            from <= i <= chars@.len(),
            1 <= radix <= 16,
            digits == chars@.subrange(from as int, chars@.len() as int),
            digits_value(digits.take(i - from), radix as nat) == Some(value as nat),
            value <= max,
        decreases chars@.len() - i,
    {
        proof {
            assert(digits.take(i + 1 - from).drop_last() =~= digits.take(i - from));
            assert(digits.take(i + 1 - from).last() == chars@[i as int]);
            if digits_value(digits, radix as nat) is Some {
                lemma_digits_value_prefix(digits, i + 1 - from, radix as nat);
            }
            assert(value as nat * radix as nat <= u64::MAX * 16) by (nonlinear_arith)
                requires
                    value <= u64::MAX,
                    radix <= 16,
            ;
        }
        match char_digit(chars[i], radix) {
            None => {
                return None;
            },
            Some(digit) => {
                let next: u128 = value as u128 * radix as u128 + digit as u128;
                if next > max as u128 {
                    return None;
                }
                value = next as u64;
            },
        }
        i = i + 1;
    }
    assert(digits.take(digits.len() as int) =~= digits);
    Some(value)
}

/// The unsigned number up to `max` that `chars` write in base `radix`.
pub fn parse_unsigned(chars: &[char], radix: u32, max: u64) -> (value: Option<u64>)
    requires
        1 <= radix <= 16,
    ensures
        value is Some <==> unsigned_up_to(chars@, radix as nat, max as nat) is Some,
        value matches Some(v) ==> unsigned_up_to(chars@, radix as nat, max as nat) == Some(
            v as nat,
        ),
{
    assert(chars@.subrange(0, chars@.len() as int) =~= chars@);
    if chars.len() > 0 && chars[0] == '+' {
        assert(chars@.subrange(1, chars@.len() as int) =~= chars@.drop_first());
        if chars.len() == 1 {
            None
        } else {
            parse_digits(chars, 1, radix, max)
        }
    } else if chars.len() == 0 {
        None
    } else {
        parse_digits(chars, 0, radix, max)
    }
}

/// The number between `min` and `max` that `chars` write in decimal.
pub fn parse_signed(chars: &[char], min: i64, max: i64) -> (value: Option<i64>)
    requires
        min < 0 <= max,
    ensures
        value is Some <==> signed_between(chars@, min as int, max as int) is Some,
        value matches Some(v) ==> signed_between(chars@, min as int, max as int) == Some(v as int),
{
    if chars.len() > 1 && chars[0] == '-' {
        assert(chars@.subrange(1, chars@.len() as int) =~= chars@.drop_first());
        let limit: u64 = (-(min as i128)) as u64;
        match parse_digits(chars, 1, 10, limit) {
            Some(magnitude) => Some((-(magnitude as i128)) as i64),
            None => None,
        }
    } else {
        match parse_unsigned(chars, 10, max as u64) {
            Some(value) => Some(value as i64),
            None => None,
        }
    }
}

/// The unsigned number up to `max` that `chars` write, in hexadecimal after
/// `0x` or `0X` and in decimal otherwise.
pub fn parse_hex_or_decimal(chars: &[char], max: u64) -> (value: Option<u64>)
    ensures
        value is Some <==> hex_or_decimal(chars@, max as nat) is Some,
        value matches Some(v) ==> hex_or_decimal(chars@, max as nat) == Some(v as nat),
{
    if chars.len() >= 2 && chars[0] == '0' && (chars[1] == 'x' || chars[1] == 'X') {
        if chars.len() == 2 {
            None
        } else {
            parse_digits(chars, 2, 16, max)
        }
    } else {
        parse_unsigned(chars, 10, max)
    }
}

/// The decimal digits of `n`, without leading zeros.
pub open spec fn decimal(n: nat) -> Seq<char>
    decreases n,
{
    if n < 10 {
        seq![digit_char(n)]
    } else {
        decimal(n / 10).push(digit_char(n % 10))
    }
}

/// `n` in decimal, with a leading `-` if it is negative.
pub open spec fn signed_decimal(n: int) -> Seq<char> {
    if n < 0 {
        seq!['-'] + decimal((-n) as nat)
    } else {
        decimal(n as nat)
    }
}

/// The two upper-case hexadecimal digits of a byte.
pub open spec fn hex2(byte: u8) -> Seq<char> {
    seq![digit_char((byte / 16) as nat), digit_char((byte % 16) as nat)]
}

/// The four upper-case hexadecimal digits of a 16-bit word.
pub open spec fn hex4(word: u16) -> Seq<char> {
    hex2((word / 256) as u8) + hex2((word % 256) as u8)
}

/// The character of a digit below 16.
pub fn char_of_digit(digit: u8) -> (c: char)
    requires
        digit < 16,
    ensures
        c == digit_char(digit as nat),
{
    if digit < 10 {
        (0x30u8 + digit) as char
    } else {
        (0x41u8 + (digit - 10)) as char
    }
}

/// Appends `n` in decimal.
pub fn push_decimal(out: &mut String, n: u64)
    ensures
        final(out)@ == old(out)@ + decimal(n as nat),
    decreases n,
{
    if n < 10 {
        out.push(char_of_digit(n as u8));
    } else {
        push_decimal(out, n / 10);
        out.push(char_of_digit((n % 10) as u8));
    }
    assert(out@ =~= old(out)@ + decimal(n as nat));
}

/// Appends `n` in decimal, with its sign if it is negative.
pub fn push_signed(out: &mut String, n: i64)
    ensures
        final(out)@ == old(out)@ + signed_decimal(n as int),
{
    if n < 0 {
        out.push('-');
        push_decimal(out, (-(n as i128)) as u64);
        assert(out@ =~= old(out)@ + signed_decimal(n as int));
    } else {
        push_decimal(out, n as u64);
    }
}

/// Appends the two hexadecimal digits of `byte`.
pub fn push_hex2(out: &mut String, byte: u8)
    ensures
        final(out)@ == old(out)@ + hex2(byte),
{
    out.push(char_of_digit(byte / 16));
    out.push(char_of_digit(byte % 16));
    assert(out@ =~= old(out)@ + hex2(byte));
}

/// Appends the four hexadecimal digits of `word`.
pub fn push_hex4(out: &mut String, word: u16)
    ensures
        final(out)@ == old(out)@ + hex4(word),
{
    push_hex2(out, (word / 256) as u8);
    push_hex2(out, (word % 256) as u8);
    assert(out@ =~= old(out)@ + hex4(word));
}

/// A digit's character has the digit's value.
pub proof fn lemma_digit_char_value(digit: nat, radix: nat)
    requires
        digit < radix <= 16,
    ensures
        digit_value(digit_char(digit), radix) == Some(digit),
        !text::is_space(digit_char(digit)),
        digit_char(digit) != '+',
        digit_char(digit) != '-',
        digit_char(digit) != 'x',
        digit_char(digit) != 'X',
{
}

/// The decimal digits of a number are one or more, and write that number.
pub proof fn lemma_decimal_value(n: nat)
    ensures
        decimal(n).len() >= 1,
        digits_value(decimal(n), 10) == Some(n),
        forall|i: int|
            0 <= i < decimal(n).len() ==> !text::is_space(#[trigger] decimal(n)[i]) && decimal(n)[i]
                != '+' && decimal(n)[i] != '-' && decimal(n)[i] != 'x' && decimal(n)[i] != 'X',
    decreases n,
{
    lemma_digit_char_value(n % 10, 10);
    if n < 10 {
        lemma_digit_char_value(n, 10);
        assert(decimal(n).drop_last() =~= Seq::<char>::empty());
        assert(digits_value(Seq::<char>::empty(), 10) == Some(0nat));
    } else {
        lemma_decimal_value(n / 10);
        assert(decimal(n).drop_last() =~= decimal(n / 10));
    }
}

/// Reading an unsigned number's decimal text gives the number back, where it
/// is within the bound.
pub proof fn law_decimal_reads_back(n: nat, max: nat)
    ensures
        hex_or_decimal(decimal(n), max) == (if n <= max {
            Some(n)
        } else {
            None
        }),
{
    lemma_decimal_value(n);
    if decimal(n).len() >= 2 {
        assert(decimal(n)[1] != 'x');
    }
    assert(decimal(n)[0] != '+');
}

/// Reading a signed number's decimal text gives the number back, where it is
/// within the bounds.
pub proof fn law_signed_decimal_reads_back(n: int, min: int, max: int)
    ensures
        signed_between(signed_decimal(n), min, max) == (if min <= n <= max {
            Some(n)
        } else {
            None
        }),
{
    if n < 0 {
        lemma_decimal_value((-n) as nat);
        assert(signed_decimal(n).drop_first() =~= decimal((-n) as nat));
    } else {
        lemma_decimal_value(n as nat);
        assert(decimal(n as nat)[0] != '+');
        assert(decimal(n as nat)[0] != '-');
    }
}

/// The digits are `0` to `9`, and in hexadecimal the letters from `a` to `f` in either
/// case, each of the value of its place; no other character is a digit.
pub proof fn law_digits(c: char)
    ensures
        digit_value(c, 16) == (match c {
            '0' => Some(0nat),
            '1' => Some(1nat),
            '2' => Some(2nat),
            '3' => Some(3nat),
            '4' => Some(4nat),
            '5' => Some(5nat),
            '6' => Some(6nat),
            '7' => Some(7nat),
            '8' => Some(8nat),
            '9' => Some(9nat),
            'a' | 'A' => Some(10nat),
            'b' | 'B' => Some(11nat),
            'c' | 'C' => Some(12nat),
            'd' | 'D' => Some(13nat),
            'e' | 'E' => Some(14nat),
            'f' | 'F' => Some(15nat),
            _ => None,
        }),
        digit_value(c, 10) == (if '0' <= c <= '9' {
            digit_value(c, 16)
        } else {
            None
        }),
{
}

/// The value of digits goes by their places: digits in front of others count as much more
/// as the others have places.
pub proof fn law_digits_count_by_their_place(front: Seq<char>, back: Seq<char>, radix: nat)
    requires
        digits_value(front, radix) is Some,
        digits_value(back, radix) is Some,
    ensures
        digits_value(front + back, radix) == Some(
            (digits_value(front, radix)->0 * vstd::arithmetic::power::pow(
                radix as int,
                back.len(),
            ) + digits_value(back, radix)->0) as nat,
        ),
    decreases back.len(),
{
    let high = digits_value(front, radix)->0 as int;
    let r = radix as int;
    vstd::arithmetic::power::lemma_pow0(r);
    if back.len() == 0 {
        assert(front + back =~= front);
    } else {
        let rest = back.drop_last();
        let low = digits_value(rest, radix)->0 as int;
        let digit = digit_value(back.last(), radix)->0 as int;
        law_digits_count_by_their_place(front, rest, radix);
        assert((front + back).drop_last() =~= front + rest);
        assert((front + back).last() == back.last());
        reveal(vstd::arithmetic::power::pow);
        let p = vstd::arithmetic::power::pow(r, rest.len());
        assert(vstd::arithmetic::power::pow(r, back.len()) == r * p);
        assert((high * p + low) * r + digit == high * (r * p) + (low * r + digit))
            by (nonlinear_arith);
        vstd::arithmetic::power::lemma_pow_positive(r, rest.len());
    }
}

/// The text of a number has no leading zero, unless it is 0, and consists of digits.
pub proof fn law_decimal_has_no_leading_zero(n: nat)
    ensures
        decimal(n).len() > 1 ==> decimal(n)[0] != '0',
        forall|i: int| 0 <= i < decimal(n).len() ==> '0' <= #[trigger] decimal(n)[i] <= '9',
    decreases n,
{
    if n >= 10 {
        law_decimal_has_no_leading_zero(n / 10);
        lemma_decimal_value(n / 10);
        assert(decimal(n)[0] == decimal(n / 10)[0]);
        if n / 10 < 10 {
            assert(decimal(n / 10)[0] == digit_char(n / 10));
        } else {
            lemma_decimal_value(n / 10 / 10);
            assert(decimal(n / 10).len() > 1);
        }
    }
}

/// A number in hexadecimal is read where its digits follow `0x` or `0X`, in either case,
/// and where it is not too large; a sign is not taken in front of them. In decimal one `+`
/// may stand in front of the digits.
pub proof fn law_forms_of_a_number(digits: Seq<char>, max: nat)
    requires
        digits.len() > 0,
    ensures
        hex_or_decimal(seq!['0', 'x'] + digits, max) == (match digits_value(digits, 16) {
            Some(value) if value <= max => Some(value),
            _ => None,
        }),
        hex_or_decimal(seq!['0', 'X'] + digits, max) == hex_or_decimal(
            seq!['0', 'x'] + digits,
            max,
        ),
        hex_or_decimal(seq!['+'] + digits, max) == (match digits_value(digits, 10) {
            Some(value) if value <= max => Some(value),
            _ => None,
        }),
        hex_or_decimal(seq!['-'] + digits, max) is None,
        hex_or_decimal(Seq::empty(), max) is None,
        hex_or_decimal(seq!['+'], max) is None,
        hex_or_decimal(seq!['0', 'x'], max) is None,
{
    let lower = seq!['0', 'x'] + digits;
    let upper = seq!['0', 'X'] + digits;
    assert(lower.subrange(2, lower.len() as int) =~= digits);
    assert(upper.subrange(2, upper.len() as int) =~= digits);
    let plus = seq!['+'] + digits;
    assert(plus[0] == '+');
    assert(plus.drop_first() =~= digits);
    let minus = seq!['-'] + digits;
    assert(minus[0] == '-');
    lemma_no_digit(minus, 10, 0);
    assert(seq!['+'].drop_first() =~= Seq::<char>::empty());
    let bare = seq!['0', 'x'];
    assert(bare.subrange(2, bare.len() as int) =~= Seq::<char>::empty());
}

/// Where one character is no digit, there is no value.
pub proof fn lemma_no_digit(s: Seq<char>, radix: nat, i: int)
    requires
        0 <= i < s.len(),
        digit_value(s[i], radix) is None,
    ensures
        digits_value(s, radix) is None,
    decreases s.len(),
{
    if i < s.len() - 1 {
        assert(s.drop_last()[i] == s[i]);
        lemma_no_digit(s.drop_last(), radix, i);
    }
}

/// The two digits of a byte are its upper and its lower half, in hexadecimal and in upper
/// case; the four of a word those of its upper and its lower byte.
pub proof fn law_hexadecimal_digits(byte: u8, word: u16)
    ensures
        hex2(byte).len() == 2,
        digits_value(hex2(byte), 16) == Some(byte as nat),
        hex4(word).len() == 4,
        digits_value(hex4(word), 16) == Some(word as nat),
        forall|i: int|
            0 <= i < 4 ==> '0' <= #[trigger] hex4(word)[i] <= '9' || 'A' <= hex4(word)[i] <= 'F',
        forall|i: int|
            0 <= i < 2 ==> '0' <= #[trigger] hex2(byte)[i] <= '9' || 'A' <= hex2(byte)[i] <= 'F',
{
    lemma_hex2_value(byte);
    let high = (word / 256) as u8;
    let low = (word % 256) as u8;
    lemma_hex2_value(high);
    lemma_hex2_value(low);
    law_digits_count_by_their_place(hex2(high), hex2(low), 16);
    assert(vstd::arithmetic::power::pow(16, 2) == 256) by {
        reveal(vstd::arithmetic::power::pow);
        vstd::arithmetic::power::lemma_pow1(16);
        assert(vstd::arithmetic::power::pow(16, 2) == 16 * vstd::arithmetic::power::pow(16, 1));
    }
}

proof fn lemma_hex2_value(byte: u8)
    ensures
        digits_value(hex2(byte), 16) == Some(byte as nat),
{
    let s = hex2(byte);
    lemma_digit_char_value((byte / 16) as nat, 16);
    lemma_digit_char_value((byte % 16) as nat, 16);
    assert(s.drop_last().drop_last() =~= Seq::<char>::empty());
    assert(digits_value(s.drop_last().drop_last(), 16) == Some(0nat));
    assert(digits_value(s.drop_last(), 16) == Some((byte / 16) as nat));
}

} // verus!
