use infused_modbus::fuzz::{
    fuzz_decoder, fuzz_decoders, fuzz_round_trips, messages, round_trip, try_decode, Message,
    Xorshift64,
};

#[test]
fn the_generator_gives_the_known_numbers() {
    let mut rng = Xorshift64::new(1);
    assert_eq!(rng.next_u64(), 1082269761);
    assert_eq!(rng.next_u64(), 1152992998833853505);
    let mut zero = Xorshift64::new(0);
    assert_eq!(zero.next_u64(), 1082269761);
}

#[test]
fn narrower_numbers_are_the_low_bits() {
    let mut rng = Xorshift64::new(1);
    assert_eq!(rng.next_u8(), (1082269761u64 % 256) as u8);
    let mut rng = Xorshift64::new(1);
    assert_eq!(rng.next_u16(), (1082269761u64 % 65536) as u16);
    let mut rng = Xorshift64::new(1);
    assert_eq!(rng.next_usize_below(1000), 761);
    let mut rng = Xorshift64::new(1);
    assert_eq!(rng.next_bytes(2), vec![65, 65]);
    let mut rng = Xorshift64::new(1);
    assert_eq!(
        rng.next_u16_vec(2),
        vec![
            (1082269761u64 % 65536) as u16,
            (1152992998833853505u64 % 65536) as u16
        ]
    );
}

#[test]
fn decoders_survive_random_input() {
    let mut rng = Xorshift64::new(42);
    assert_eq!(fuzz_decoders(&mut rng).len(), 7);
}

#[test]
fn a_run_depends_on_its_seed_alone() {
    let mut first = Xorshift64::new(7);
    let mut second = Xorshift64::new(7);
    assert_eq!(
        fuzz_decoder(Message::ExceptionResponse, &mut first),
        fuzz_decoder(Message::ExceptionResponse, &mut second)
    );
    assert_eq!(first, second);
}

#[test]
fn every_kind_of_message_comes_back() {
    let mut rng = Xorshift64::new(42);
    assert_eq!(fuzz_round_trips(&mut rng), Ok(()));
    for message in messages() {
        assert!(round_trip(message, &mut rng));
    }
}

#[test]
fn only_messages_of_the_kind_are_accepted() {
    assert!(try_decode(
        Message::ReadHoldingRegistersRequest,
        &[0x03, 0x00, 0x01, 0x00, 0x02]
    ));
    assert!(!try_decode(
        Message::WriteSingleRegisterRequest,
        &[0x03, 0x00, 0x01, 0x00, 0x02]
    ));
    assert_eq!(Message::ExceptionResponse.name(), "ExceptionResponse");
}
