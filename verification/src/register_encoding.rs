//! Register values as the 16-bit words they are on the wire.

use crate::device_description::{DataType, MemLayout};
use crate::values::{Float32, Float64, RegisterValue};
use crate::wire::{
    bytes_words, law_words_round_trip, push_u16_be, push_words, read_words, words_bytes,
};
use vstd::prelude::*;

verus! {

/// A word with its two bytes swapped.
pub open spec fn swapped(word: u16) -> u16 {
    ((word % 256) * 256 + word / 256) as u16
}

/// The words with the bytes of each of them swapped.
pub open spec fn bytes_swapped(words: Seq<u16>) -> Seq<u16> {
    Seq::new(words.len(), |i: int| swapped(words[i]))
}

/// The words as a device with this layout has them.
pub open spec fn laid_out(words: Seq<u16>, mem_layout: MemLayout) -> Seq<u16> {
    match mem_layout {
        MemLayout::Abcd => words,
        MemLayout::Badc => bytes_swapped(words),
        MemLayout::Cdab => words.reverse(),
        MemLayout::Dcba => bytes_swapped(words).reverse(),
    }
}

/// A signed number as an unsigned one of `modulus` values.
pub open spec fn wrapped(value: int, modulus: int) -> int {
    if value < 0 {
        value + modulus
    } else {
        value
    }
}

/// An unsigned number of `modulus` values as a signed one.
pub open spec fn signed(value: int, modulus: int) -> int {
    if 2 * value >= modulus {
        value - modulus
    } else {
        value
    }
}

/// The two words of a 32-bit number, the more significant one first.
pub open spec fn two_words(value: int) -> Seq<u16> {
    seq![(value / 0x10000) as u16, (value % 0x10000) as u16]
}

/// The four words of a 64-bit number, the most significant one first.
pub open spec fn four_words(value: int) -> Seq<u16> {
    two_words(value / 0x1_0000_0000) + two_words(value % 0x1_0000_0000)
}

/// The 32-bit number that two words hold.
pub open spec fn number_of_two(words: Seq<u16>) -> int {
    words[0] * 0x10000 + words[1]
}

/// The 64-bit number that four words hold.
pub open spec fn number_of_four(words: Seq<u16>) -> int {
    (words[0] * 0x10000 + words[1]) * 0x1_0000_0000 + (words[2] * 0x10000 + words[3])
}

/// The words of a value, the most significant one first. An 8-bit value is
/// widened to a whole word.
pub open spec fn natural_words(value: RegisterValue) -> Seq<u16> {
    match value {
        RegisterValue::U8(v) => seq![v as u16],
        RegisterValue::I8(v) => seq![wrapped(v as int, 0x10000) as u16],
        RegisterValue::U16(v) => seq![v],
        RegisterValue::I16(v) => seq![wrapped(v as int, 0x10000) as u16],
        RegisterValue::U24(v) => two_words(v as int),
        RegisterValue::I24(v) => two_words(wrapped(v as int, 0x1_0000_0000)),
        RegisterValue::U32(v) => two_words(v as int),
        RegisterValue::I32(v) => two_words(wrapped(v as int, 0x1_0000_0000)),
        RegisterValue::F32(v) => two_words(v.bits as int),
        RegisterValue::U64(v) => four_words(v as int),
        RegisterValue::I64(v) => four_words(wrapped(v as int, 0x1_0000_0000_0000_0000)),
        RegisterValue::F64(v) => four_words(v.bits as int),
    }
}

/// The words of a value on the wire. A single word is never rearranged.
pub open spec fn value_words(value: RegisterValue, mem_layout: MemLayout) -> Seq<u16> {
    if value.kind().width() == 1 {
        natural_words(value)
    } else {
        laid_out(natural_words(value), mem_layout)
    }
}

/// Whether words on the wire are `value`, of the type `data_type`. The text of
/// a floating-point number is what `single` or `double` makes of its bits.
pub open spec fn words_value<S: Fn(u32) -> String, D: Fn(u64) -> String>(
    single: S,
    double: D,
    data_type: DataType,
    words: Seq<u16>,
    mem_layout: MemLayout,
    value: RegisterValue,
) -> bool {
    let natural = laid_out(words, mem_layout);
    match data_type {
        DataType::U8 => value == RegisterValue::U8((words[0] % 256) as u8),
        DataType::I8 => value == RegisterValue::I8(signed((words[0] % 256) as int, 256) as i8),
        DataType::U16 => value == RegisterValue::U16(words[0]),
        DataType::I16 => value == RegisterValue::I16(signed(words[0] as int, 0x10000) as i16),
        DataType::U24 => value == RegisterValue::U24(number_of_two(natural) as u32),
        DataType::I24 => value == RegisterValue::I24(
            signed(number_of_two(natural), 0x1_0000_0000) as i32,
        ),
        DataType::U32 => value == RegisterValue::U32(number_of_two(natural) as u32),
        DataType::I32 => value == RegisterValue::I32(
            signed(number_of_two(natural), 0x1_0000_0000) as i32,
        ),
        DataType::U64 => value == RegisterValue::U64(number_of_four(natural) as u64),
        DataType::I64 => value == RegisterValue::I64(
            signed(number_of_four(natural), 0x1_0000_0000_0000_0000) as i64,
        ),
        DataType::F32 => value matches RegisterValue::F32(v) && v.bits == number_of_two(natural)
            && call_ensures(single, (v.bits,), v.text),
        DataType::F64 => value matches RegisterValue::F64(v) && v.bits == number_of_four(natural)
            && call_ensures(double, (v.bits,), v.text),
    }
}

/// Rearranges the words of a value as a device with this layout has them, or
/// back.
pub fn apply_mem_layout(words: &mut Vec<u16>, mem_layout: MemLayout)
    ensures
        final(words)@ == laid_out(old(words)@, mem_layout),
{
    let (reverse_word_order, swap_bytes_within_word) = match mem_layout {
        MemLayout::Abcd => (false, false),
        MemLayout::Badc => (false, true),
        MemLayout::Cdab => (true, false),
        MemLayout::Dcba => (true, true),
    };
    if swap_bytes_within_word {
        let mut i: usize = 0;
        while i < words.len()
            invariant
                i <= words@.len(),
                words@.len() == old(words)@.len(),
                forall|k: int|
                    0 <= k < words@.len() ==> words@[k] == (if k < i {
                        swapped(old(words)@[k])
                    } else {
                        old(words)@[k]
                    }),
            decreases words@.len() - i,
        {
            let word: u16 = words[i];
            words.set(i, (word % 256) * 256 + word / 256);
            i = i + 1;
        }
        assert(words@ =~= bytes_swapped(old(words)@));
    }
    if reverse_word_order {
        let ghost before = words@;
        let count: usize = words.len();
        let mut turned: Vec<u16> = Vec::new();
        let mut i: usize = count;
        while i > 0
            invariant
                i <= count,
                words@ == before,
                count == before.len(),
                turned@.len() == count - i,
                forall|k: int| 0 <= k < turned@.len() ==> turned@[k] == before[count - 1 - k],
            decreases i,
        {
            i = i - 1;
            turned.push(words[i]);
        }
        assert(turned@ =~= before.reverse());
        *words = turned;
    }
}

/// The words on the wire of a value with these big-endian bytes.
pub fn words_from_natural_bytes(bytes: &[u8], mem_layout: MemLayout) -> (words: Vec<u16>)
    ensures
        words@ == laid_out(bytes_words(bytes@), mem_layout),
{
    let mut words = read_words(bytes);
    apply_mem_layout(&mut words, mem_layout);
    words
}

/// The big-endian bytes of a value with these words on the wire.
pub fn natural_bytes_from_words(words: &[u16], mem_layout: MemLayout) -> (bytes: Vec<u8>)
    ensures
        bytes@ == words_bytes(laid_out(words@, mem_layout)),
{
    let mut natural = vstd::slice::slice_to_vec(words);
    apply_mem_layout(&mut natural, mem_layout);
    let mut bytes: Vec<u8> = Vec::new();
    push_words(&mut bytes, natural.as_slice());
    assert(bytes@ =~= words_bytes(natural@));
    bytes
}

/// The big-endian bytes of a 32-bit number.
fn bytes_of_u32(value: u32) -> (bytes: Vec<u8>)
    ensures
        bytes@ == words_bytes(two_words(value as int)),
{
    let mut bytes: Vec<u8> = Vec::new();
    push_u16_be(&mut bytes, (value / 0x10000) as u16);
    push_u16_be(&mut bytes, (value % 0x10000) as u16);
    assert(bytes@ =~= words_bytes(two_words(value as int)));
    bytes
}

/// The big-endian bytes of a 64-bit number.
fn bytes_of_u64(value: u64) -> (bytes: Vec<u8>)
    ensures
        bytes@ == words_bytes(four_words(value as int)),
{
    let high: u32 = (value / 0x1_0000_0000) as u32;
    let low: u32 = (value % 0x1_0000_0000) as u32;
    let mut bytes: Vec<u8> = Vec::new();
    push_u16_be(&mut bytes, (high / 0x10000) as u16);
    push_u16_be(&mut bytes, (high % 0x10000) as u16);
    push_u16_be(&mut bytes, (low / 0x10000) as u16);
    push_u16_be(&mut bytes, (low % 0x10000) as u16);
    assert(four_words(value as int) =~= seq![
        (high / 0x10000) as u16,
        (high % 0x10000) as u16,
        (low / 0x10000) as u16,
        (low % 0x10000) as u16,
    ]);
    assert(bytes@ =~= words_bytes(four_words(value as int)));
    bytes
}

/// The 32-bit number that the bytes of two words hold.
fn u32_of_bytes(bytes: &[u8]) -> (value: u32)
    requires
        bytes@.len() == 4,
    ensures
        value == number_of_two(bytes_words(bytes@)),
{
    let words = read_words(bytes);
    words[0] as u32 * 0x10000 + words[1] as u32
}

/// The 64-bit number that the bytes of four words hold.
fn u64_of_bytes(bytes: &[u8]) -> (value: u64)
    requires
        bytes@.len() == 8,
    ensures
        value == number_of_four(bytes_words(bytes@)),
{
    let words = read_words(bytes);
    let high: u64 = words[0] as u64 * 0x10000 + words[1] as u64;
    let low: u64 = words[2] as u64 * 0x10000 + words[3] as u64;
    high * 0x1_0000_0000 + low
}

/// A signed 32-bit number as an unsigned one.
fn unsigned32(value: i32) -> (result: u32)
    ensures
        result == wrapped(value as int, 0x1_0000_0000),
{
    if value < 0 {
        (value as i64 + 0x1_0000_0000) as u32
    } else {
        value as u32
    }
}

/// An unsigned 32-bit number as a signed one.
fn signed32(value: u32) -> (result: i32)
    ensures
        result == signed(value as int, 0x1_0000_0000),
{
    if value >= 0x8000_0000 {
        (value as i64 - 0x1_0000_0000) as i32
    } else {
        value as i32
    }
}

/// A signed 64-bit number as an unsigned one.
fn unsigned64(value: i64) -> (result: u64)
    ensures
        result == wrapped(value as int, 0x1_0000_0000_0000_0000),
{
    if value < 0 {
        (value as i128 + 0x1_0000_0000_0000_0000) as u64
    } else {
        value as u64
    }
}

/// An unsigned 64-bit number as a signed one.
fn signed64(value: u64) -> (result: i64)
    ensures
        result == signed(value as int, 0x1_0000_0000_0000_0000),
{
    if value >= 0x8000_0000_0000_0000 {
        (value as i128 - 0x1_0000_0000_0000_0000) as i64
    } else {
        value as i64
    }
}

/// A signed 16-bit number as an unsigned one.
fn unsigned16(value: i16) -> (result: u16)
    ensures
        result == wrapped(value as int, 0x10000),
{
    if value < 0 {
        (value as i32 + 0x10000) as u16
    } else {
        value as u16
    }
}

/// A list of one word.
fn one_word(word: u16) -> (words: Vec<u16>)
    ensures
        words@ == seq![word],
{
    let mut words: Vec<u16> = Vec::new();
    words.push(word);
    assert(words@ =~= seq![word]);
    words
}

/// The words that `value` is written as, in the order of their addresses.
pub fn register_value_to_words(value: RegisterValue, mem_layout: MemLayout) -> (words: Vec<u16>)
    ensures
        words@ == value_words(value, mem_layout),
{
    proof {
        law_words_round_trip(natural_words(value));
    }
    match value {
        RegisterValue::U8(value) => one_word(value as u16),
        RegisterValue::I8(value) => one_word(unsigned16(value as i16)),
        RegisterValue::U16(value) => one_word(value),
        RegisterValue::I16(value) => one_word(unsigned16(value)),
        RegisterValue::U24(value) | RegisterValue::U32(value) => {
            words_from_natural_bytes(bytes_of_u32(value).as_slice(), mem_layout)
        },
        RegisterValue::I24(value) | RegisterValue::I32(value) => {
            words_from_natural_bytes(bytes_of_u32(unsigned32(value)).as_slice(), mem_layout)
        },
        RegisterValue::F32(value) => {
            words_from_natural_bytes(bytes_of_u32(value.bits).as_slice(), mem_layout)
        },
        RegisterValue::U64(value) => {
            words_from_natural_bytes(bytes_of_u64(value).as_slice(), mem_layout)
        },
        RegisterValue::I64(value) => {
            words_from_natural_bytes(bytes_of_u64(unsigned64(value)).as_slice(), mem_layout)
        },
        RegisterValue::F64(value) => {
            words_from_natural_bytes(bytes_of_u64(value.bits).as_slice(), mem_layout)
        },
    }
}

/// The value of type `data_type` that `words` are, in the order of their
/// addresses; nothing where they are not as many as the type takes. `single`
/// and `double` give the text of floating-point numbers.
pub fn register_value_from_words<S: Fn(u32) -> String, D: Fn(u64) -> String>(
    data_type: DataType,
    words: &[u16],
    mem_layout: MemLayout,
    single: &S,
    double: &D,
) -> (value: Option<RegisterValue>)
    requires
        forall|bits: u32| #[trigger] call_requires(*single, (bits,)),
        forall|bits: u64| #[trigger] call_requires(*double, (bits,)),
    ensures
        value is Some <==> words@.len() == data_type.width(),
        value matches Some(v) ==> words_value(*single, *double, data_type, words@, mem_layout, v),
{
    if words.len() != data_type.register_count() as usize {
        return None;
    }
    let bytes = natural_bytes_from_words(words, mem_layout);
    proof {
        law_words_round_trip(laid_out(words@, mem_layout));
    }
    let value = match data_type {
        DataType::U8 => RegisterValue::U8((words[0] % 256) as u8),
        DataType::I8 => {
            let low: u8 = (words[0] % 256) as u8;
            if low >= 128 {
                RegisterValue::I8((low as i16 - 256) as i8)
            } else {
                RegisterValue::I8(low as i8)
            }
        },
        DataType::U16 => RegisterValue::U16(words[0]),
        DataType::I16 => {
            if words[0] >= 0x8000 {
                RegisterValue::I16((words[0] as i32 - 0x10000) as i16)
            } else {
                RegisterValue::I16(words[0] as i16)
            }
        },
        DataType::U24 => RegisterValue::U24(u32_of_bytes(bytes.as_slice())),
        DataType::I24 => RegisterValue::I24(signed32(u32_of_bytes(bytes.as_slice()))),
        DataType::U32 => RegisterValue::U32(u32_of_bytes(bytes.as_slice())),
        DataType::I32 => RegisterValue::I32(signed32(u32_of_bytes(bytes.as_slice()))),
        DataType::F32 => {
            let bits: u32 = u32_of_bytes(bytes.as_slice());
            RegisterValue::F32(Float32 { bits, text: single(bits) })
        },
        DataType::U64 => RegisterValue::U64(u64_of_bytes(bytes.as_slice())),
        DataType::I64 => RegisterValue::I64(signed64(u64_of_bytes(bytes.as_slice()))),
        DataType::F64 => {
            let bits: u64 = u64_of_bytes(bytes.as_slice());
            RegisterValue::F64(Float64 { bits, text: double(bits) })
        },
    };
    Some(value)
}

/// Laying words out twice gives them back.
pub proof fn law_layout_is_its_own_inverse(words: Seq<u16>, mem_layout: MemLayout)
    ensures
        laid_out(laid_out(words, mem_layout), mem_layout) == words,
        laid_out(words, mem_layout).len() == words.len(),
{
    assert(forall|w: u16| #[trigger] swapped(swapped(w)) == w);
    assert(laid_out(laid_out(words, mem_layout), mem_layout) =~= words);
}

/// A value takes as many words as its type says.
pub proof fn law_word_count(value: RegisterValue, mem_layout: MemLayout)
    ensures
        value_words(value, mem_layout).len() == value.kind().width(),
{
    law_layout_is_its_own_inverse(natural_words(value), mem_layout);
}

/// The words of a value are that value: what is read back of what was written
/// is the same integer, or a floating-point number with the same bits.
pub proof fn law_words_read_back<S: Fn(u32) -> String, D: Fn(u64) -> String>(
    single: S,
    double: D,
    value: RegisterValue,
    mem_layout: MemLayout,
    read: RegisterValue,
)
    requires
        words_value(
            single,
            double,
            value.kind(),
            value_words(value, mem_layout),
            mem_layout,
            read,
        ),
    ensures
        !(value is F32) && !(value is F64) ==> read == value,
        value matches RegisterValue::F32(v) ==> read matches RegisterValue::F32(r) && r.bits
            == v.bits,
        value matches RegisterValue::F64(v) ==> read matches RegisterValue::F64(r) && r.bits
            == v.bits,
{
    law_layout_is_its_own_inverse(natural_words(value), mem_layout);
    match value {
        RegisterValue::U64(v) => lemma_four_words(v as int),
        RegisterValue::I64(v) => lemma_four_words(wrapped(v as int, 0x1_0000_0000_0000_0000)),
        RegisterValue::F64(v) => lemma_four_words(v.bits as int),
        _ => {},
    }
}

/// A layout is named after the order in which it puts the bytes A (the most
/// significant) to D of a 32-bit value on the wire.
pub proof fn law_layouts_order_the_bytes(a: u8, b: u8, c: u8, d: u8)
    ensures
        ({
            let value = RegisterValue::U32(
                (a * 0x100_0000 + b * 0x1_0000 + c * 0x100 + d) as u32,
            );
            &&& words_bytes(value_words(value, MemLayout::Abcd)) == seq![a, b, c, d]
            &&& words_bytes(value_words(value, MemLayout::Badc)) == seq![b, a, d, c]
            &&& words_bytes(value_words(value, MemLayout::Cdab)) == seq![c, d, a, b]
            &&& words_bytes(value_words(value, MemLayout::Dcba)) == seq![d, c, b, a]
        }),
{
    let number = a * 0x100_0000 + b * 0x1_0000 + c * 0x100 + d;
    let value = RegisterValue::U32(number as u32);
    let natural = natural_words(value);
    assert(natural[0] == a * 0x100 + b);
    assert(natural[1] == c * 0x100 + d);
    assert(swapped(natural[0]) == b * 0x100 + a);
    assert(swapped(natural[1]) == d * 0x100 + c);
    lemma_bytes_of_two(value_words(value, MemLayout::Abcd), a, b, c, d);
    lemma_bytes_of_two(value_words(value, MemLayout::Badc), b, a, d, c);
    lemma_bytes_of_two(value_words(value, MemLayout::Cdab), c, d, a, b);
    lemma_bytes_of_two(value_words(value, MemLayout::Dcba), d, c, b, a);
}

proof fn lemma_bytes_of_two(words: Seq<u16>, a: u8, b: u8, c: u8, d: u8)
    requires
        words.len() == 2,
        words[0] == a * 0x100 + b,
        words[1] == c * 0x100 + d,
    ensures
        words_bytes(words) == seq![a, b, c, d],
{
    assert(words_bytes(words) =~= seq![a, b, c, d]);
}

/// The words of a value, in the layout that leaves them in order, are its number: the
/// most significant word first, and a negative number as its two's complement.
pub proof fn law_words_are_the_number(value: RegisterValue)
    ensures
        ({
            let words = value_words(value, MemLayout::Abcd);
            let one = words[0] as int;
            let two = words[0] * 0x1_0000 + words[1];
            let four = words[0] * 0x1_0000_0000_0000 + words[1] * 0x1_0000_0000 + words[2]
                * 0x1_0000 + words[3];
            match value {
                RegisterValue::U8(v) => words.len() == 1 && one == v,
                RegisterValue::I8(v) => words.len() == 1 && (one == v && v >= 0 || one == v
                    + 0x1_0000 && v < 0),
                RegisterValue::U16(v) => words.len() == 1 && one == v,
                RegisterValue::I16(v) => words.len() == 1 && (one == v && v >= 0 || one == v
                    + 0x1_0000 && v < 0),
                RegisterValue::U24(v) => words.len() == 2 && two == v,
                RegisterValue::I24(v) => words.len() == 2 && (two == v && v >= 0 || two == v
                    + 0x1_0000_0000 && v < 0),
                RegisterValue::U32(v) => words.len() == 2 && two == v,
                RegisterValue::I32(v) => words.len() == 2 && (two == v && v >= 0 || two == v
                    + 0x1_0000_0000 && v < 0),
                RegisterValue::F32(v) => words.len() == 2 && two == v.bits,
                RegisterValue::U64(v) => words.len() == 4 && four == v,
                RegisterValue::I64(v) => words.len() == 4 && (four == v && v >= 0 || four == v
                    + 0x1_0000_0000_0000_0000 && v < 0),
                RegisterValue::F64(v) => words.len() == 4 && four == v.bits,
            }
        }),
{
    match value {
        RegisterValue::U64(v) => lemma_four_words(v as int),
        RegisterValue::I64(v) => lemma_four_words(wrapped(v as int, 0x1_0000_0000_0000_0000)),
        RegisterValue::F64(v) => lemma_four_words(v.bits as int),
        _ => {},
    }
}

/// In the other layouts the same words stand in the opposite order, with their bytes
/// swapped, or both; a value of a single word is the same in all of them.
pub proof fn law_layouts_rearrange_the_words(value: RegisterValue, k: int)
    requires
        0 <= k < value.kind().width(),
    ensures
        ({
            let width = value.kind().width() as int;
            let in_order = value_words(value, MemLayout::Abcd);
            let swapped_bytes = value_words(value, MemLayout::Badc);
            let reversed = value_words(value, MemLayout::Cdab);
            let both = value_words(value, MemLayout::Dcba);
            &&& width == 1 ==> swapped_bytes == in_order && reversed == in_order && both == in_order
            &&& width > 1 ==> {
                &&& swapped_bytes[k] / 256 == in_order[k] % 256
                &&& swapped_bytes[k] % 256 == in_order[k] / 256
                &&& reversed[k] == in_order[width - 1 - k]
                &&& both[k] / 256 == in_order[width - 1 - k] % 256
                &&& both[k] % 256 == in_order[width - 1 - k] / 256
            }
        }),
{
    let natural = natural_words(value);
    law_word_count(value, MemLayout::Abcd);
    assert(natural.len() == value.kind().width());
}

/// Words that are read as a value of a layout are those that the value has in it: what
/// is read and written again is the same, but for the upper byte of an 8-bit value,
/// which is not read.
pub proof fn law_value_writes_its_words_back<S: Fn(u32) -> String, D: Fn(u64) -> String>(
    single: S,
    double: D,
    data_type: DataType,
    words: Seq<u16>,
    mem_layout: MemLayout,
    value: RegisterValue,
)
    requires
        words.len() == data_type.width(),
        words_value(single, double, data_type, words, mem_layout, value),
    ensures
        value.kind() == data_type,
        data_type == DataType::U8 || data_type == DataType::I8 ==> value_words(
            value,
            mem_layout,
        )[0] % 256 == words[0] % 256,
        data_type != DataType::U8 && data_type != DataType::I8 ==> value_words(value, mem_layout)
            == words,
{
    let natural = laid_out(words, mem_layout);
    assert(natural.len() == words.len());
    assert(value.kind() == data_type);
    if data_type.width() == 2 {
        lemma_two_back(natural);
    } else if data_type.width() == 4 {
        lemma_four_back(natural);
    }
    lemma_natural_back(single, double, data_type, words, natural, mem_layout, value);
    if data_type.width() > 1 {
        law_layout_is_its_own_inverse(words, mem_layout);
    }
}

proof fn lemma_natural_back<S: Fn(u32) -> String, D: Fn(u64) -> String>(
    single: S,
    double: D,
    data_type: DataType,
    words: Seq<u16>,
    natural: Seq<u16>,
    mem_layout: MemLayout,
    value: RegisterValue,
)
    requires
        words.len() == data_type.width(),
        natural == laid_out(words, mem_layout),
        words_value(single, double, data_type, words, mem_layout, value),
        data_type.width() == 2 ==> 0 <= number_of_two(natural) < 0x1_0000_0000 && two_words(
            number_of_two(natural),
        ) == natural,
        data_type.width() == 4 ==> 0 <= number_of_four(natural) < 0x1_0000_0000_0000_0000
            && four_words(number_of_four(natural)) == natural,
    ensures
        data_type.width() > 1 ==> natural_words(value) == natural,
        data_type == DataType::U16 || data_type == DataType::I16 ==> natural_words(value) == words,
        data_type == DataType::U8 || data_type == DataType::I8 ==> natural_words(value)[0] % 256
            == words[0] % 256,
{
    if data_type == DataType::U16 || data_type == DataType::I16 {
        assert(natural_words(value) =~= words);
    }
}

proof fn lemma_two_back(words: Seq<u16>)
    requires
        words.len() == 2,
    ensures
        0 <= number_of_two(words) < 0x1_0000_0000,
        two_words(number_of_two(words)) == words,
{
    assert(two_words(number_of_two(words)) =~= words);
}

proof fn lemma_four_back(words: Seq<u16>)
    requires
        words.len() == 4,
    ensures
        0 <= number_of_four(words) < 0x1_0000_0000_0000_0000,
        four_words(number_of_four(words)) == words,
{
    let number = number_of_four(words);
    let high = words[0] * 0x10000 + words[1];
    let low = words[2] * 0x10000 + words[3];
    assert(number / 0x1_0000_0000 == high);
    assert(number % 0x1_0000_0000 == low);
    assert(four_words(number) =~= words);
}

/// The top byte of a 24-bit value is 0, or repeats the sign.
pub proof fn law_padding_of_24_bit_values(unsigned: u32, signed_value: i32)
    requires
        unsigned < 0x100_0000,
        -0x80_0000 <= signed_value < 0x80_0000,
    ensures
        natural_words(RegisterValue::U24(unsigned))[0] / 256 == 0,
        natural_words(RegisterValue::I24(signed_value))[0] / 256 == (if signed_value < 0 {
            255int
        } else {
            0int
        }),
{
}

proof fn lemma_four_words(value: int)
    requires
        0 <= value < 0x1_0000_0000_0000_0000,
    ensures
        number_of_four(four_words(value)) == value,
{
    let high = value / 0x1_0000_0000;
    let low = value % 0x1_0000_0000;
    let words = four_words(value);
    assert(words[0] == (high / 0x10000) as u16);
    assert(words[1] == (high % 0x10000) as u16);
    assert(words[2] == (low / 0x10000) as u16);
    assert(words[3] == (low % 0x10000) as u16);
    assert(words[0] * 0x10000 + words[1] == high);
    assert(words[2] * 0x10000 + words[3] == low);
}

} // verus!
