//! What is written into the files of the file system, read as values.

use crate::device_description::DataType;
use crate::filesystem::InfusedFilesystem;
use crate::numbers;
use crate::text;
use crate::values::{CoilValue, Float32, Float64, RegisterValue};
use vstd::prelude::*;

verus! {

/// The largest 24-bit number.
pub const U24_MAX: u32 = 0x00FF_FFFF;

/// The smallest signed 24-bit number.
pub const I24_MIN: i32 = -0x0080_0000;

/// The largest signed 24-bit number.
pub const I24_MAX: i32 = 0x007F_FFFF;

/// The register value of an integer type that `s` writes: unsigned numbers in
/// hexadecimal or decimal, signed ones in decimal, each within the range of its
/// type.
pub open spec fn integer_reading(data_type: DataType, s: Seq<char>) -> Option<RegisterValue> {
    match data_type {
        DataType::U8 => match numbers::hex_or_decimal(s, u8::MAX as nat) {
            Some(v) => Some(RegisterValue::U8(v as u8)),
            None => None,
        },
        DataType::U16 => match numbers::hex_or_decimal(s, u16::MAX as nat) {
            Some(v) => Some(RegisterValue::U16(v as u16)),
            None => None,
        },
        DataType::U24 => match numbers::hex_or_decimal(s, U24_MAX as nat) {
            Some(v) => Some(RegisterValue::U24(v as u32)),
            None => None,
        },
        DataType::U32 => match numbers::hex_or_decimal(s, u32::MAX as nat) {
            Some(v) => Some(RegisterValue::U32(v as u32)),
            None => None,
        },
        DataType::U64 => match numbers::hex_or_decimal(s, u64::MAX as nat) {
            Some(v) => Some(RegisterValue::U64(v as u64)),
            None => None,
        },
        DataType::I8 => match numbers::signed_between(s, i8::MIN as int, i8::MAX as int) {
            Some(v) => Some(RegisterValue::I8(v as i8)),
            None => None,
        },
        DataType::I16 => match numbers::signed_between(s, i16::MIN as int, i16::MAX as int) {
            Some(v) => Some(RegisterValue::I16(v as i16)),
            None => None,
        },
        DataType::I24 => match numbers::signed_between(s, I24_MIN as int, I24_MAX as int) {
            Some(v) => Some(RegisterValue::I24(v as i32)),
            None => None,
        },
        DataType::I32 => match numbers::signed_between(s, i32::MIN as int, i32::MAX as int) {
            Some(v) => Some(RegisterValue::I32(v as i32)),
            None => None,
        },
        DataType::I64 => match numbers::signed_between(s, i64::MIN as int, i64::MAX as int) {
            Some(v) => Some(RegisterValue::I64(v as i64)),
            None => None,
        },
        DataType::F32 | DataType::F64 => None,
    }
}

/// Whether `text`, without its surrounding white space, reads as `value`; the
/// floating-point types go by what `single` and `double` make of it.
pub open spec fn reads_as<S: Fn(&str) -> Option<Float32>, D: Fn(&str) -> Option<Float64>>(
    single: S,
    double: D,
    data_type: DataType,
    text: Seq<char>,
    value: Option<RegisterValue>,
) -> bool {
    match data_type {
        DataType::F32 => exists|word: &str, number: Option<Float32>|
            {
                &&& word@ == text::trimmed(text)
                &&& #[trigger] call_ensures(single, (word,), number)
                &&& value == match number {
                    Some(n) => Some(RegisterValue::F32(n)),
                    None => None,
                }
            },
        DataType::F64 => exists|word: &str, number: Option<Float64>|
            {
                &&& word@ == text::trimmed(text)
                &&& #[trigger] call_ensures(double, (word,), number)
                &&& value == match number {
                    Some(n) => Some(RegisterValue::F64(n)),
                    None => None,
                }
            },
        _ => value == integer_reading(data_type, text::trimmed(text)),
    }
}

/// The two masks that `text` writes: the word `MASK` in any case and two
/// unsigned 16-bit numbers.
pub open spec fn masks_reading(text: Seq<char>) -> Option<(u16, u16)> {
    let parts = text::words(text);
    if parts.len() == 3 && text::same_ignoring_case(parts[0], seq!['M', 'A', 'S', 'K']) {
        match (
            numbers::hex_or_decimal(parts[1], u16::MAX as nat),
            numbers::hex_or_decimal(parts[2], u16::MAX as nat),
        ) {
            (Some(and_mask), Some(or_mask)) => Some((and_mask as u16, or_mask as u16)),
            _ => None,
        }
    } else {
        None
    }
}

/// The coil value that `text` writes: `0` or `1`.
pub open spec fn coil_reading(text: Seq<char>) -> Option<CoilValue> {
    if text::trimmed(text) == seq!['0'] {
        Some(CoilValue(false))
    } else if text::trimmed(text) == seq!['1'] {
        Some(CoilValue(true))
    } else {
        None
    }
}

/// Whether all of `s` are hexadecimal digits.
pub open spec fn is_hex(s: Seq<char>) -> bool {
    forall|i: int| 0 <= i < s.len() ==> numbers::digit_value(#[trigger] s[i], 16) is Some
}

/// The byte that two hexadecimal digits write.
pub open spec fn pair_value(high: char, low: char) -> u8 {
    (numbers::digit_value(high, 16)->0 * 16 + numbers::digit_value(low, 16)->0) as u8
}

/// The bytes that pairs of hexadecimal digits write.
pub open spec fn pair_values(digits: Seq<char>) -> Seq<u8> {
    Seq::new(digits.len() / 2, |i: int| pair_value(digits[2 * i], digits[2 * i + 1]))
}

/// The bytes of a file record that `text` writes: one pair of hexadecimal
/// digits or more, with white space anywhere.
pub open spec fn record_reading(text: Seq<char>) -> Option<Seq<u8>> {
    let digits = text::without_spaces(text);
    if digits.len() > 0 && digits.len() % 2 == 0 && is_hex(digits) {
        Some(pair_values(digits))
    } else {
        None
    }
}

/// The bytes in hexadecimal, with a space between them.
pub open spec fn hex_dump(bytes: Seq<u8>) -> Seq<char>
    decreases bytes.len(),
{
    if bytes.len() == 0 {
        Seq::empty()
    } else if bytes.len() == 1 {
        numbers::hex2(bytes[0])
    } else {
        hex_dump(bytes.drop_last()).push(' ') + numbers::hex2(bytes.last())
    }
}

/// Whether `chars` are the letters of `MASK`, in any case.
fn is_mask_keyword(chars: &[char]) -> (is: bool)
    ensures
        is == text::same_ignoring_case(chars@, seq!['M', 'A', 'S', 'K']),
{
    let ghost keyword = seq!['M', 'A', 'S', 'K'];
    if chars.len() != 4 {
        return false;
    }
    let is = (chars[0] == 'M' || chars[0] == 'm') && (chars[1] == 'A' || chars[1] == 'a') && (
    chars[2] == 'S' || chars[2] == 's') && (chars[3] == 'K' || chars[3] == 'k');
    proof {
        assert(forall|c: char| text::ascii_upper(c) == 'M' <==> (c == 'M' || c == 'm'));
        assert(forall|c: char| text::ascii_upper(c) == 'A' <==> (c == 'A' || c == 'a'));
        assert(forall|c: char| text::ascii_upper(c) == 'S' <==> (c == 'S' || c == 's'));
        assert(forall|c: char| text::ascii_upper(c) == 'K' <==> (c == 'K' || c == 'k'));
        if is {
            assert forall|i: int| 0 <= i < 4 implies text::ascii_upper(chars@[i])
                == text::ascii_upper(keyword[i]) by {
                assert(i == 0 || i == 1 || i == 2 || i == 3);
            }
        } else if text::same_ignoring_case(chars@, keyword) {
            assert(text::ascii_upper(chars@[0]) == text::ascii_upper(keyword[0]));
            assert(text::ascii_upper(chars@[1]) == text::ascii_upper(keyword[1]));
            assert(text::ascii_upper(chars@[2]) == text::ascii_upper(keyword[2]));
            assert(text::ascii_upper(chars@[3]) == text::ascii_upper(keyword[3]));
        }
    }
    is
}

impl InfusedFilesystem {
    /// The value of type `data_type` that `text` writes. `single` and `double`
    /// read the floating-point numbers.
    pub fn parse_register_value<S: Fn(&str) -> Option<Float32>, D: Fn(&str) -> Option<Float64>>(
        data_type: DataType,
        text: &str,
        single: &S,
        double: &D,
    ) -> (value: Option<RegisterValue>)
        requires
            forall|word: &str| #[trigger] call_requires(*single, (word,)),
            forall|word: &str| #[trigger] call_requires(*double, (word,)),
        ensures
            reads_as(*single, *double, data_type, text@, value),
    {
        let chars = text::trim_text(text);
        let s = chars.as_slice();
        match data_type {
            DataType::U8 => match numbers::parse_hex_or_decimal(s, u8::MAX as u64) {
                Some(value) => Some(RegisterValue::U8(value as u8)),
                None => None,
            },
            DataType::I8 => match numbers::parse_signed(s, i8::MIN as i64, i8::MAX as i64) {
                Some(value) => Some(RegisterValue::I8(value as i8)),
                None => None,
            },
            DataType::U16 => match numbers::parse_hex_or_decimal(s, u16::MAX as u64) {
                Some(value) => Some(RegisterValue::U16(value as u16)),
                None => None,
            },
            DataType::I16 => match numbers::parse_signed(s, i16::MIN as i64, i16::MAX as i64) {
                Some(value) => Some(RegisterValue::I16(value as i16)),
                None => None,
            },
            DataType::U24 => match numbers::parse_hex_or_decimal(s, U24_MAX as u64) {
                Some(value) => Some(RegisterValue::U24(value as u32)),
                None => None,
            },
            DataType::I24 => match numbers::parse_signed(s, I24_MIN as i64, I24_MAX as i64) {
                Some(value) => Some(RegisterValue::I24(value as i32)),
                None => None,
            },
            DataType::U32 => match numbers::parse_hex_or_decimal(s, u32::MAX as u64) {
                Some(value) => Some(RegisterValue::U32(value as u32)),
                None => None,
            },
            DataType::I32 => match numbers::parse_signed(s, i32::MIN as i64, i32::MAX as i64) {
                Some(value) => Some(RegisterValue::I32(value as i32)),
                None => None,
            },
            DataType::U64 => match numbers::parse_hex_or_decimal(s, u64::MAX) {
                Some(value) => Some(RegisterValue::U64(value)),
                None => None,
            },
            DataType::I64 => match numbers::parse_signed(s, i64::MIN, i64::MAX) {
                Some(value) => Some(RegisterValue::I64(value)),
                None => None,
            },
            DataType::F32 => {
                let word = text::string_of(s);
                match single(word.as_str()) {
                    Some(number) => Some(RegisterValue::F32(number)),
                    None => None,
                }
            },
            DataType::F64 => {
                let word = text::string_of(s);
                match double(word.as_str()) {
                    Some(number) => Some(RegisterValue::F64(number)),
                    None => None,
                }
            },
        }
    }

    /// The masks of a masked write that `text` writes.
    pub fn parse_masked_register_value(text: &str) -> (masks: Option<(u16, u16)>)
        ensures
            masks == masks_reading(text@),
    {
        let parts = text::words_of(text);
        let ghost views = text::char_views(parts@);
        if parts.len() != 3 {
            return None;
        }
        assert(views[0] == parts@[0]@ && views[1] == parts@[1]@ && views[2] == parts@[2]@);
        if !is_mask_keyword(parts[0].as_slice()) {
            return None;
        }
        let and_mask = numbers::parse_hex_or_decimal(parts[1].as_slice(), u16::MAX as u64);
        let or_mask = numbers::parse_hex_or_decimal(parts[2].as_slice(), u16::MAX as u64);
        match (and_mask, or_mask) {
            (Some(and_mask), Some(or_mask)) => Some((and_mask as u16, or_mask as u16)),
            _ => None,
        }
    }

    /// The coil value that `text` writes.
    pub fn parse_coil_value(text: &str) -> (value: Option<CoilValue>)
        ensures
            value == coil_reading(text@),
    {
        let chars = text::trim_text(text);
        if chars.len() == 1 && chars[0] == '0' {
            assert(chars@ =~= seq!['0']);
            Some(CoilValue(false))
        } else if chars.len() == 1 && chars[0] == '1' {
            assert(chars@ =~= seq!['1']);
            Some(CoilValue(true))
        } else {
            assert(chars@ != seq!['0'] && chars@ != seq!['1']);
            None
        }
    }

    /// The bytes of a file record that `text` writes.
    pub fn parse_file_record_value(text: &str) -> (value: Option<Vec<u8>>)
        ensures
            value is Some <==> record_reading(text@) is Some,
            value matches Some(bytes) ==> record_reading(text@) == Some(bytes@),
    {
        let digits = text::strip_spaces(text);
        if digits.len() == 0 || digits.len() % 2 != 0 {
            return None;
        }
        let mut bytes: Vec<u8> = Vec::new();
        let mut i: usize = 0;
        while i < digits.len()
            invariant
                i <= digits@.len(),
                i % 2 == 0,
                digits@.len() % 2 == 0,
                digits@.len() > 0,
                digits@ == text::without_spaces(text@),
                is_hex(digits@.take(i as int)),
                bytes@ == pair_values(digits@.take(i as int)),
            decreases digits@.len() - i,
        {
            let high = numbers::char_digit(digits[i], 16);
            let low = numbers::char_digit(digits[i + 1], 16);
            match (high, low) {
                (Some(high), Some(low)) => {
                    bytes.push((high * 16 + low) as u8);
                },
                _ => {
                    assert(!is_hex(digits@));
                    return None;
                },
            }
            proof {
                let before = digits@.take(i as int);
                let after = digits@.take(i + 2);
                assert forall|k: int| 0 <= k < after.len() implies numbers::digit_value(
                    #[trigger] after[k],
                    16,
                ) is Some by {
                    if k < i {
                        assert(after[k] == before[k]);
                    }
                }
                assert(bytes@ =~= pair_values(after));
            }
            i = i + 2;
        }
        assert(digits@.take(digits@.len() as int) =~= digits@);
        Some(bytes)
    }

    /// The content of a file record's file: its bytes in hexadecimal.
    pub fn format_file_record_hex(bytes: &[u8]) -> (content: String)
        ensures
            content@ == hex_dump(bytes@).push('\n'),
    {
        let mut out = String::new();
        let mut i: usize = 0;
        while i < bytes.len()
            invariant
                i <= bytes@.len(),
                out@ == hex_dump(bytes@.take(i as int)),
            decreases bytes@.len() - i,
        {
            let ghost before = out@;
            if i > 0 {
                out.push(' ');
            }
            numbers::push_hex2(&mut out, bytes[i]);
            assert(bytes@.take(i + 1).drop_last() =~= bytes@.take(i as int));
            assert(out@ =~= hex_dump(bytes@.take(i + 1)));
            i = i + 1;
        }
        assert(bytes@.take(bytes@.len() as int) =~= bytes@);
        out.push('\n');
        out
    }
}

/// Whether `single` and `double` read the text of `value` back as `value`, where it
/// is a floating-point number; an integer is within the range of its type.
pub open spec fn is_readable<S: Fn(&str) -> Option<Float32>, D: Fn(&str) -> Option<Float64>>(
    single: S,
    double: D,
    value: RegisterValue,
) -> bool {
    match value {
        RegisterValue::U24(v) => v <= U24_MAX,
        RegisterValue::I24(v) => I24_MIN <= v <= I24_MAX,
        RegisterValue::F32(v) => {
            &&& v.text@.len() > 0 && !text::is_space(v.text@[0]) && !text::is_space(v.text@.last())
            &&& forall|word: &str, number: Option<Float32>|
                word@ == v.text@ && #[trigger] call_ensures(single, (word,), number) ==> number
                    == Some(v)
        },
        RegisterValue::F64(v) => {
            &&& v.text@.len() > 0 && !text::is_space(v.text@[0]) && !text::is_space(v.text@.last())
            &&& forall|word: &str, number: Option<Float64>|
                word@ == v.text@ && #[trigger] call_ensures(double, (word,), number) ==> number
                    == Some(v)
        },
        _ => true,
    }
}

/// The text of a value, with any white space around it, reads as that value: the
/// content of a register's file can be written back. A floating-point number reads
/// back where the functions that read it give it back.
pub proof fn law_register_text_reads_back<
    S: Fn(&str) -> Option<Float32>,
    D: Fn(&str) -> Option<Float64>,
>(
    single: S,
    double: D,
    value: RegisterValue,
    before: Seq<char>,
    after: Seq<char>,
    read: Option<RegisterValue>,
)
    requires
        is_readable(single, double, value),
        text::all_spaces(before),
        text::all_spaces(after),
        reads_as(single, double, value.kind(), before + value.text() + after, read),
    ensures
        read == Some(value),
{
    match value {
        RegisterValue::U8(v) => lemma_unsigned_text(v as nat, u8::MAX as nat, before, after),
        RegisterValue::U16(v) => lemma_unsigned_text(v as nat, u16::MAX as nat, before, after),
        RegisterValue::U24(v) => lemma_unsigned_text(v as nat, U24_MAX as nat, before, after),
        RegisterValue::U32(v) => lemma_unsigned_text(v as nat, u32::MAX as nat, before, after),
        RegisterValue::U64(v) => lemma_unsigned_text(v as nat, u64::MAX as nat, before, after),
        RegisterValue::I8(v) => {
            lemma_signed_text(v as int, i8::MIN as int, i8::MAX as int, before, after);
        },
        RegisterValue::I16(v) => {
            lemma_signed_text(v as int, i16::MIN as int, i16::MAX as int, before, after);
        },
        RegisterValue::I24(v) => {
            lemma_signed_text(v as int, I24_MIN as int, I24_MAX as int, before, after);
        },
        RegisterValue::I32(v) => {
            lemma_signed_text(v as int, i32::MIN as int, i32::MAX as int, before, after);
        },
        RegisterValue::I64(v) => {
            lemma_signed_text(v as int, i64::MIN as int, i64::MAX as int, before, after);
        },
        RegisterValue::F32(v) => text::lemma_trimmed_inside(before, v.text@, after),
        RegisterValue::F64(v) => text::lemma_trimmed_inside(before, v.text@, after),
    }
}

/// Whatever text is read, the value has the type that was asked for, and a 24-bit
/// value keeps within 24 bits.
pub proof fn law_reading_has_its_type<
    S: Fn(&str) -> Option<Float32>,
    D: Fn(&str) -> Option<Float64>,
>(single: S, double: D, data_type: DataType, text: Seq<char>, value: RegisterValue)
    requires
        reads_as(single, double, data_type, text, Some(value)),
    ensures
        value.kind() == data_type,
        value matches RegisterValue::U24(v) ==> v <= 0x00FF_FFFF,
        value matches RegisterValue::I24(v) ==> -0x0080_0000 <= v <= 0x007F_FFFF,
{
}

proof fn lemma_unsigned_text(n: nat, max: nat, before: Seq<char>, after: Seq<char>)
    requires
        n <= max,
        text::all_spaces(before),
        text::all_spaces(after),
    ensures
        numbers::hex_or_decimal(text::trimmed(before + numbers::decimal(n) + after), max) == Some(
            n,
        ),
{
    numbers::lemma_decimal_value(n);
    numbers::law_decimal_reads_back(n, max);
    text::lemma_trimmed_inside(before, numbers::decimal(n), after);
}

proof fn lemma_signed_text(n: int, min: int, max: int, before: Seq<char>, after: Seq<char>)
    requires
        min <= n <= max,
        text::all_spaces(before),
        text::all_spaces(after),
    ensures
        numbers::signed_between(
            text::trimmed(before + numbers::signed_decimal(n) + after),
            min,
            max,
        ) == Some(n),
{
    numbers::law_signed_decimal_reads_back(n, min, max);
    let s = numbers::signed_decimal(n);
    if n < 0 {
        numbers::lemma_decimal_value((-n) as nat);
        assert(s.last() == numbers::decimal((-n) as nat).last());
    } else {
        numbers::lemma_decimal_value(n as nat);
    }
    text::lemma_trimmed_inside(before, s, after);
}

/// The text of a coil's value, with any white space around it, reads as that value.
pub proof fn law_coil_text_reads_back(value: CoilValue, before: Seq<char>, after: Seq<char>)
    requires
        text::all_spaces(before),
        text::all_spaces(after),
    ensures
        coil_reading(before + value.text() + after) == Some(value),
{
    text::lemma_trimmed_inside(before, value.text(), after);
    assert(seq!['0'][0] == '0');
    assert(seq!['1'][0] == '1');
}

/// The two digits of a byte write that byte.
proof fn lemma_pair_value(byte: u8)
    ensures
        numbers::hex2(byte).len() == 2,
        is_hex(numbers::hex2(byte)),
        pair_value(numbers::hex2(byte)[0], numbers::hex2(byte)[1]) == byte,
        text::without_spaces(numbers::hex2(byte)) == numbers::hex2(byte),
{
    let high = (byte / 16) as nat;
    let low = (byte % 16) as nat;
    numbers::lemma_digit_char_value(high, 16);
    numbers::lemma_digit_char_value(low, 16);
    let s = numbers::hex2(byte);
    assert(s.drop_last() =~= seq![numbers::digit_char(high)]);
    assert(s.drop_last().drop_last() =~= Seq::<char>::empty());
    reveal_with_fuel(text::without_spaces, 3);
    assert(text::without_spaces(s.drop_last()) =~= s.drop_last());
    assert(text::without_spaces(s) =~= s);
}

proof fn lemma_without_spaces_concat(s: Seq<char>, t: Seq<char>)
    ensures
        text::without_spaces(s + t) == text::without_spaces(s) + text::without_spaces(t),
    decreases t.len(),
{
    if t.len() == 0 {
        assert(s + t =~= s);
        assert(text::without_spaces(s) + text::without_spaces(t) =~= text::without_spaces(s));
    } else {
        assert((s + t).drop_last() =~= s + t.drop_last());
        lemma_without_spaces_concat(s, t.drop_last());
        assert(text::without_spaces(s + t) =~= text::without_spaces(s) + text::without_spaces(t));
    }
}

/// The digits of a hexadecimal dump write the dumped bytes.
proof fn lemma_hex_dump_digits(bytes: Seq<u8>)
    ensures
        text::without_spaces(hex_dump(bytes)).len() == 2 * bytes.len(),
        is_hex(text::without_spaces(hex_dump(bytes))),
        pair_values(text::without_spaces(hex_dump(bytes))) == bytes,
    decreases bytes.len(),
{
    let digits = text::without_spaces(hex_dump(bytes));
    if bytes.len() == 0 {
        assert(pair_values(digits) =~= bytes);
    } else {
        let rest = bytes.drop_last();
        let last = numbers::hex2(bytes.last());
        let front = text::without_spaces(hex_dump(rest));
        lemma_hex_dump_digits(rest);
        lemma_pair_value(bytes.last());
        let head = if bytes.len() == 1 {
            Seq::<char>::empty()
        } else {
            hex_dump(rest).push(' ')
        };
        assert(hex_dump(bytes) =~= head + last);
        lemma_without_spaces_concat(head, last);
        if bytes.len() > 1 {
            assert(head.drop_last() =~= hex_dump(rest));
        }
        assert(text::without_spaces(head) == front);
        assert(digits =~= front + last);
        assert forall|i: int| 0 <= i < digits.len() implies numbers::digit_value(
            #[trigger] digits[i],
            16,
        ) is Some by {
            if i < front.len() {
                assert(digits[i] == front[i]);
            } else {
                assert(digits[i] == last[i - front.len()]);
            }
        }
        assert forall|i: int| 0 <= i < bytes.len() implies #[trigger] pair_values(digits)[i]
            == bytes[i] by {
            if i < rest.len() {
                assert(pair_values(front)[i] == rest[i]);
            }
        }
        assert(pair_values(digits) =~= bytes);
    }
}

/// Writing the content of a file record's file back gives the same bytes, for
/// every record that has any.
pub proof fn law_record_text_reads_back(bytes: Seq<u8>)
    requires
        bytes.len() > 0,
    ensures
        record_reading(hex_dump(bytes).push('\n')) == Some(bytes),
{
    lemma_hex_dump_digits(bytes);
    assert(hex_dump(bytes).push('\n').drop_last() =~= hex_dump(bytes));
    assert(text::is_space('\n'));
}

/// The decimal text of a number is read as a value of a type where the number is within
/// the range of that type, and as no value where it is not.
pub proof fn law_range_of_each_type(n: int)
    ensures
        n >= 0 ==> integer_reading(DataType::U8, numbers::decimal(n as nat)) == (if n <= 255 {
            Some(RegisterValue::U8(n as u8))
        } else {
            None
        }),
        n >= 0 ==> integer_reading(DataType::U16, numbers::decimal(n as nat)) == (if n <= 65535 {
            Some(RegisterValue::U16(n as u16))
        } else {
            None
        }),
        n >= 0 ==> integer_reading(
            DataType::U24,
            numbers::decimal(n as nat),
        ) == (if n <= 16_777_215 {
            Some(RegisterValue::U24(n as u32))
        } else {
            None
        }),
        n >= 0 ==> integer_reading(
            DataType::U32,
            numbers::decimal(n as nat),
        ) == (if n <= 4_294_967_295 {
            Some(RegisterValue::U32(n as u32))
        } else {
            None
        }),
        n >= 0 ==> integer_reading(
            DataType::U64,
            numbers::decimal(n as nat),
        ) == (if n <= 18_446_744_073_709_551_615 {
            Some(RegisterValue::U64(n as u64))
        } else {
            None
        }),
        integer_reading(DataType::I8, numbers::signed_decimal(n)) == (if -128 <= n < 128 {
            Some(RegisterValue::I8(n as i8))
        } else {
            None
        }),
        integer_reading(DataType::I16, numbers::signed_decimal(n)) == (if -32_768 <= n < 32_768 {
            Some(RegisterValue::I16(n as i16))
        } else {
            None
        }),
        integer_reading(
            DataType::I24,
            numbers::signed_decimal(n),
        ) == (if -8_388_608 <= n < 8_388_608 {
            Some(RegisterValue::I24(n as i32))
        } else {
            None
        }),
        integer_reading(
            DataType::I32,
            numbers::signed_decimal(n),
        ) == (if -2_147_483_648 <= n < 2_147_483_648 {
            Some(RegisterValue::I32(n as i32))
        } else {
            None
        }),
        integer_reading(
            DataType::I64,
            numbers::signed_decimal(n),
        ) == (if -9_223_372_036_854_775_808 <= n < 9_223_372_036_854_775_808 {
            Some(RegisterValue::I64(n as i64))
        } else {
            None
        }),
{
    if n >= 0 {
        numbers::law_decimal_reads_back(n as nat, u8::MAX as nat);
        numbers::law_decimal_reads_back(n as nat, u16::MAX as nat);
        numbers::law_decimal_reads_back(n as nat, U24_MAX as nat);
        numbers::law_decimal_reads_back(n as nat, u32::MAX as nat);
        numbers::law_decimal_reads_back(n as nat, u64::MAX as nat);
    }
    numbers::law_signed_decimal_reads_back(n, i8::MIN as int, i8::MAX as int);
    numbers::law_signed_decimal_reads_back(n, i16::MIN as int, i16::MAX as int);
    numbers::law_signed_decimal_reads_back(n, I24_MIN as int, I24_MAX as int);
    numbers::law_signed_decimal_reads_back(n, i32::MIN as int, i32::MAX as int);
    numbers::law_signed_decimal_reads_back(n, i64::MIN as int, i64::MAX as int);
}

/// A number in hexadecimal digits behind `0x` is read as a value of each unsigned type
/// within whose range it is, and as no value of a signed type.
pub proof fn law_hexadecimal_text_of_each_type(digits: Seq<char>, n: nat)
    requires
        digits.len() > 0,
        numbers::digits_value(digits, 16) == Some(n),
    ensures
        integer_reading(DataType::U8, seq!['0', 'x'] + digits) == (if n <= 255 {
            Some(RegisterValue::U8(n as u8))
        } else {
            None
        }),
        integer_reading(DataType::U16, seq!['0', 'x'] + digits) == (if n <= 65535 {
            Some(RegisterValue::U16(n as u16))
        } else {
            None
        }),
        integer_reading(DataType::U24, seq!['0', 'x'] + digits) == (if n <= 16_777_215 {
            Some(RegisterValue::U24(n as u32))
        } else {
            None
        }),
        integer_reading(DataType::U32, seq!['0', 'x'] + digits) == (if n <= 4_294_967_295 {
            Some(RegisterValue::U32(n as u32))
        } else {
            None
        }),
        integer_reading(
            DataType::U64,
            seq!['0', 'x'] + digits,
        ) == (if n <= 18_446_744_073_709_551_615 {
            Some(RegisterValue::U64(n as u64))
        } else {
            None
        }),
        integer_reading(DataType::I8, seq!['0', 'x'] + digits) is None,
        integer_reading(DataType::I16, seq!['0', 'x'] + digits) is None,
        integer_reading(DataType::I24, seq!['0', 'x'] + digits) is None,
        integer_reading(DataType::I32, seq!['0', 'x'] + digits) is None,
        integer_reading(DataType::I64, seq!['0', 'x'] + digits) is None,
{
    numbers::law_forms_of_a_number(digits, u8::MAX as nat);
    numbers::law_forms_of_a_number(digits, u16::MAX as nat);
    numbers::law_forms_of_a_number(digits, U24_MAX as nat);
    numbers::law_forms_of_a_number(digits, u32::MAX as nat);
    numbers::law_forms_of_a_number(digits, u64::MAX as nat);
    let s = seq!['0', 'x'] + digits;
    assert(s[0] == '0' && s[1] == 'x');
    numbers::lemma_no_digit(s, 10, 1);
}

/// Only `0` and `1`, with white space around them, are read as values of coils: `0` as
/// off, `1` as on.
pub proof fn law_coil_is_read_from_its_text_alone(text: Seq<char>) -> (parts: (
    Seq<char>,
    Seq<char>,
))
    ensures
        coil_reading(text) == Some(CoilValue(true)) ==> text == parts.0 + seq!['1'] + parts.1,
        coil_reading(text) == Some(CoilValue(false)) ==> text == parts.0 + seq!['0'] + parts.1,
        text::all_spaces(parts.0) && text::all_spaces(parts.1),
{
    assert(seq!['0'][0] != seq!['1'][0]);
    text::law_only_white_space_is_trimmed(text)
}

/// The word `MASK`, in any case, and two numbers, with white space between them, are read
/// as these two masks, the one to keep first.
pub proof fn law_masks_of_any_spelling(
    keyword: Seq<char>,
    first_space: char,
    and_text: Seq<char>,
    second_space: char,
    or_text: Seq<char>,
    and_mask: u16,
    or_mask: u16,
)
    requires
        keyword.len() == 4,
        keyword[0] == 'M' || keyword[0] == 'm',
        keyword[1] == 'A' || keyword[1] == 'a',
        keyword[2] == 'S' || keyword[2] == 's',
        keyword[3] == 'K' || keyword[3] == 'k',
        text::is_space(first_space),
        text::is_space(second_space),
        and_text.len() > 0,
        or_text.len() > 0,
        forall|i: int| 0 <= i < and_text.len() ==> !text::is_space(#[trigger] and_text[i]),
        forall|i: int| 0 <= i < or_text.len() ==> !text::is_space(#[trigger] or_text[i]),
        numbers::hex_or_decimal(and_text, 65535) == Some(and_mask as nat),
        numbers::hex_or_decimal(or_text, 65535) == Some(or_mask as nat),
    ensures
        masks_reading(
            keyword + seq![first_space] + (and_text + seq![second_space] + or_text),
        ) == Some((and_mask, or_mask)),
{
    let rest = and_text + seq![second_space] + or_text;
    let whole = keyword + seq![first_space] + rest;
    text::law_words_of_texts(keyword, first_space, rest);
    text::law_words_of_texts(and_text, second_space, or_text);
    assert forall|i: int| 0 <= i < keyword.len() implies !text::is_space(#[trigger] keyword[i]) by {
        assert(i == 0 || i == 1 || i == 2 || i == 3);
    }
    text::law_text_without_space_is_a_word(keyword);
    text::law_text_without_space_is_a_word(and_text);
    text::law_text_without_space_is_a_word(or_text);
    assert(text::words(whole) =~= seq![keyword, and_text, or_text]);
    let upper = seq!['M', 'A', 'S', 'K'];
    assert(text::same_ignoring_case(keyword, upper)) by {
        assert forall|i: int| 0 <= i < keyword.len() implies text::ascii_upper(keyword[i])
            == text::ascii_upper(upper[i]) by {
            assert(i == 0 || i == 1 || i == 2 || i == 3);
        }
    }
}

/// A text is read as a file record where what it has beside white space is one pair of
/// hexadecimal digits or more; each pair is one byte, in order.
pub proof fn law_pairs_of_digits_are_the_bytes(text: Seq<char>, k: int)
    ensures
        ({
            let digits = text.filter(|c: char| !text::is_space(c));
            &&& record_reading(text) is Some <==> digits.len() > 0 && digits.len() % 2 == 0
                && forall|i: int|
                0 <= i < digits.len() ==> numbers::digit_value(#[trigger] digits[i], 16) is Some
            &&& record_reading(text) matches Some(bytes) ==> 2 * bytes.len() == digits.len() && (0
                <= k < bytes.len() ==> bytes[k] == numbers::digit_value(digits[2 * k], 16)->0 * 16
                + numbers::digit_value(digits[2 * k + 1], 16)->0)
        }),
{
    text::law_only_white_space_is_left_out(text);
    let digits = text::without_spaces(text);
    if let Some(bytes) = record_reading(text) {
        if 0 <= k < bytes.len() {
            assert(numbers::digit_value(digits[2 * k], 16) is Some);
            assert(numbers::digit_value(digits[2 * k + 1], 16) is Some);
        }
    }
}

/// The text of a staged file record is read as its bytes.
pub proof fn law_staged_record_text_reads_back(bytes: Seq<u8>)
    requires
        bytes.len() > 0,
    ensures
        record_reading(crate::values::spaced_hex(bytes)) == Some(bytes),
{
    lemma_spaced_hex_digits(bytes);
}

proof fn lemma_spaced_hex_digits(bytes: Seq<u8>)
    ensures
        text::without_spaces(crate::values::spaced_hex(bytes)).len() == 2 * bytes.len(),
        is_hex(text::without_spaces(crate::values::spaced_hex(bytes))),
        pair_values(text::without_spaces(crate::values::spaced_hex(bytes))) == bytes,
    decreases bytes.len(),
{
    let digits = text::without_spaces(crate::values::spaced_hex(bytes));
    if bytes.len() == 0 {
        assert(pair_values(digits) =~= bytes);
    } else {
        let rest = bytes.drop_last();
        let last = numbers::hex2(bytes.last());
        let head = crate::values::spaced_hex(rest);
        let front = text::without_spaces(head);
        lemma_spaced_hex_digits(rest);
        lemma_pair_value(bytes.last());
        let whole = crate::values::spaced_hex(bytes);
        assert(whole.drop_last() =~= head + last);
        assert(whole.last() == ' ');
        lemma_without_spaces_concat(head, last);
        assert(digits =~= front + last);
        assert forall|i: int| 0 <= i < digits.len() implies numbers::digit_value(
            #[trigger] digits[i],
            16,
        ) is Some by {
            if i < front.len() {
                assert(digits[i] == front[i]);
            } else {
                assert(digits[i] == last[i - front.len()]);
            }
        }
        assert forall|i: int| 0 <= i < bytes.len() implies #[trigger] pair_values(digits)[i]
            == bytes[i] by {
            if i < rest.len() {
                assert(pair_values(front)[i] == rest[i]);
            }
        }
        assert(pair_values(digits) =~= bytes);
    }
}

/// In the dump of bytes each byte has two hexadecimal digits of its own, and one space
/// stands between two bytes, and nothing else.
pub proof fn law_dump_is_evenly_spaced(bytes: Seq<u8>, k: int)
    requires
        0 <= k < bytes.len(),
    ensures
        hex_dump(bytes).len() == 3 * bytes.len() - 1,
        numbers::digits_value(hex_dump(bytes).subrange(3 * k, 3 * k + 2), 16) == Some(
            bytes[k] as nat,
        ),
        k < bytes.len() - 1 ==> hex_dump(bytes)[3 * k + 2] == ' ',
    decreases bytes.len(),
{
    let rest = bytes.drop_last();
    numbers::law_hexadecimal_digits(bytes.last(), 0);
    let digits = numbers::hex2(bytes.last());
    if bytes.len() == 1 {
        assert(hex_dump(bytes).subrange(0, 2) =~= digits);
    } else {
        law_dump_is_evenly_spaced(rest, rest.len() - 1);
        let whole = hex_dump(bytes);
        if k < rest.len() {
            law_dump_is_evenly_spaced(rest, k);
            assert(whole.subrange(3 * k, 3 * k + 2) =~= hex_dump(rest).subrange(
                3 * k,
                3 * k + 2,
            ));
        } else {
            assert(whole.subrange(3 * k, 3 * k + 2) =~= digits);
        }
    }
}

/// In the text of a staged file record each byte has two hexadecimal digits of its own and
/// a space behind it.
pub proof fn law_staged_record_text_is_evenly_spaced(bytes: Seq<u8>, k: int)
    requires
        0 <= k < bytes.len(),
    ensures
        crate::values::spaced_hex(bytes).len() == 3 * bytes.len(),
        numbers::digits_value(
            crate::values::spaced_hex(bytes).subrange(3 * k, 3 * k + 2),
            16,
        ) == Some(bytes[k] as nat),
        crate::values::spaced_hex(bytes)[3 * k + 2] == ' ',
    decreases bytes.len(),
{
    let rest = bytes.drop_last();
    numbers::law_hexadecimal_digits(bytes.last(), 0);
    let digits = numbers::hex2(bytes.last());
    let whole = crate::values::spaced_hex(bytes);
    let front = crate::values::spaced_hex(rest);
    if rest.len() > 0 {
        law_staged_record_text_is_evenly_spaced(rest, rest.len() - 1);
    } else {
        assert(front =~= Seq::<char>::empty());
    }
    if k < rest.len() {
        law_staged_record_text_is_evenly_spaced(rest, k);
        assert(whole.subrange(3 * k, 3 * k + 2) =~= front.subrange(3 * k, 3 * k + 2));
    } else {
        assert(whole.subrange(3 * k, 3 * k + 2) =~= digits);
    }
}

} // verus!
