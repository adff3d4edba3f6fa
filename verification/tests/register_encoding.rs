use infused_modbus::device_description::{DataType, MemLayout};
use infused_modbus::register_encoding::{register_value_from_words, register_value_to_words};
use infused_modbus::values::{Float32, Float64, RegisterValue};

fn single(value: f32) -> RegisterValue {
    RegisterValue::F32(Float32 {
        bits: value.to_bits(),
        text: value.to_string(),
    })
}

fn double(value: f64) -> RegisterValue {
    RegisterValue::F64(Float64 {
        bits: value.to_bits(),
        text: value.to_string(),
    })
}

fn read(data_type: DataType, words: &[u16], mem_layout: MemLayout) -> Option<RegisterValue> {
    register_value_from_words(
        data_type,
        words,
        mem_layout,
        &|bits: u32| f32::from_bits(bits).to_string(),
        &|bits: u64| f64::from_bits(bits).to_string(),
    )
}

#[test]
fn u8_occupies_one_register_in_the_low_byte() {
    assert_eq!(
        register_value_to_words(RegisterValue::U8(0xAB), MemLayout::Abcd),
        vec![0x00AB]
    );
}

#[test]
fn i8_occupies_one_register_sign_extended() {
    assert_eq!(
        register_value_to_words(RegisterValue::I8(-1), MemLayout::Abcd),
        vec![0xFFFF]
    );
    assert_eq!(
        register_value_to_words(RegisterValue::I8(1), MemLayout::Abcd),
        vec![0x0001]
    );
}

#[test]
fn u16_occupies_one_register_unchanged_by_mem_layout() {
    for mem_layout in [
        MemLayout::Abcd,
        MemLayout::Badc,
        MemLayout::Cdab,
        MemLayout::Dcba,
    ] {
        assert_eq!(
            register_value_to_words(RegisterValue::U16(0xBEEF), mem_layout),
            vec![0xBEEF]
        );
    }
}

// A known 4-byte value (bytes A=0x12 B=0x34 C=0x56 D=0x78) run through
// all four MemLayout conventions, checked against their own names:
// ABCD/BADC/CDAB/DCBA describe exactly which byte ends up in which
// wire position, in order.
#[test]
fn u32_encodes_to_the_four_named_byte_orders() {
    let value = RegisterValue::U32(0x1234_5678);
    assert_eq!(
        register_value_to_words(value.clone(), MemLayout::Abcd),
        vec![0x1234, 0x5678]
    );
    assert_eq!(
        register_value_to_words(value.clone(), MemLayout::Badc),
        vec![0x3412, 0x7856]
    );
    assert_eq!(
        register_value_to_words(value.clone(), MemLayout::Cdab),
        vec![0x5678, 0x1234]
    );
    assert_eq!(
        register_value_to_words(value.clone(), MemLayout::Dcba),
        vec![0x7856, 0x3412]
    );
}

#[test]
fn u32_round_trips_through_every_mem_layout() {
    for mem_layout in [
        MemLayout::Abcd,
        MemLayout::Badc,
        MemLayout::Cdab,
        MemLayout::Dcba,
    ] {
        let value = RegisterValue::U32(0x1234_5678);
        let words = register_value_to_words(value.clone(), mem_layout);
        assert_eq!(
            read(DataType::U32, &words, mem_layout),
            Some(value)
        );
    }
}

#[test]
fn i32_round_trips_including_negative_values() {
    for mem_layout in [
        MemLayout::Abcd,
        MemLayout::Badc,
        MemLayout::Cdab,
        MemLayout::Dcba,
    ] {
        let value = RegisterValue::I32(-123_456_789);
        let words = register_value_to_words(value.clone(), mem_layout);
        assert_eq!(
            read(DataType::I32, &words, mem_layout),
            Some(value)
        );
    }
}

#[test]
fn f32_round_trips() {
    let value = single(3.5);
    let words = register_value_to_words(value.clone(), MemLayout::Cdab);
    assert_eq!(
        read(DataType::F32, &words, MemLayout::Cdab),
        Some(value)
    );
}

#[test]
fn u64_round_trips_across_four_registers() {
    for mem_layout in [
        MemLayout::Abcd,
        MemLayout::Badc,
        MemLayout::Cdab,
        MemLayout::Dcba,
    ] {
        let value = RegisterValue::U64(0x1122_3344_5566_7788);
        let words = register_value_to_words(value.clone(), mem_layout);
        assert_eq!(words.len(), 4);
        assert_eq!(
            read(DataType::U64, &words, mem_layout),
            Some(value)
        );
    }
}

#[test]
fn i64_round_trips_a_negative_value() {
    let value = RegisterValue::I64(-1);
    let words = register_value_to_words(value.clone(), MemLayout::Dcba);
    assert_eq!(words, vec![0xFFFF, 0xFFFF, 0xFFFF, 0xFFFF]);
    assert_eq!(
        read(DataType::I64, &words, MemLayout::Dcba),
        Some(value)
    );
}

#[test]
fn f64_round_trips() {
    let value = double(3.5);
    let words = register_value_to_words(value.clone(), MemLayout::Badc);
    assert_eq!(
        read(DataType::F64, &words, MemLayout::Badc),
        Some(value)
    );
}

#[test]
fn u24_and_i24_round_trip_like_u32_i32_with_a_zero_padding_byte() {
    let value = RegisterValue::U24(0x00FF_FFFF);
    let words = register_value_to_words(value.clone(), MemLayout::Abcd);
    assert_eq!(words, vec![0x00FF, 0xFFFF]);
    assert_eq!(
        read(DataType::U24, &words, MemLayout::Abcd),
        Some(value)
    );

    let value = RegisterValue::I24(-1);
    let words = register_value_to_words(value.clone(), MemLayout::Abcd);
    assert_eq!(words, vec![0xFFFF, 0xFFFF]);
    assert_eq!(
        read(DataType::I24, &words, MemLayout::Abcd),
        Some(value)
    );
}

#[test]
fn register_value_from_words_rejects_the_wrong_word_count() {
    assert_eq!(
        read(DataType::U32, &[0x1234], MemLayout::Abcd),
        None
    );
    assert_eq!(
        read(DataType::U16, &[0x1234, 0x5678], MemLayout::Abcd),
        None
    );
}

#[test]
fn a_64_bit_value_follows_its_layout_too() {
    let value = RegisterValue::U64(0x0102_0304_0506_0708);
    assert_eq!(
        register_value_to_words(value.clone(), MemLayout::Abcd),
        vec![0x0102, 0x0304, 0x0506, 0x0708]
    );
    assert_eq!(
        register_value_to_words(value.clone(), MemLayout::Badc),
        vec![0x0201, 0x0403, 0x0605, 0x0807]
    );
    assert_eq!(
        register_value_to_words(value.clone(), MemLayout::Cdab),
        vec![0x0708, 0x0506, 0x0304, 0x0102]
    );
    assert_eq!(
        register_value_to_words(value, MemLayout::Dcba),
        vec![0x0807, 0x0605, 0x0403, 0x0201]
    );
}

#[test]
fn the_high_byte_of_an_8_bit_register_is_ignored() {
    assert_eq!(
        read(DataType::U8, &[0x12AB], MemLayout::Abcd),
        Some(RegisterValue::U8(0xAB))
    );
    assert_eq!(
        read(DataType::I8, &[0x00FF], MemLayout::Abcd),
        Some(RegisterValue::I8(-1))
    );
}
