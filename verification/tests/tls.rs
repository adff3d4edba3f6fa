use infused_modbus::tls::{generate_self_signed_identity, Identity, IdentityError};

#[test]
fn generates_non_empty_certificate_and_key() {
    let identity = generate_self_signed_identity().unwrap();

    assert!(!identity.certificate_der.is_empty());
    assert!(!identity.private_key_der.is_empty());
}

#[test]
fn generates_a_fresh_key_pair_every_call() {
    let first = generate_self_signed_identity().unwrap();
    let second = generate_self_signed_identity().unwrap();

    assert_ne!(first.certificate_der, second.certificate_der);
    assert_ne!(first.private_key_der, second.private_key_der);
}

#[test]
fn an_identity_holds_what_was_generated() {
    let identity = Identity::from_generated(Ok((vec![1, 2], vec![3]))).unwrap();
    assert_eq!(identity.certificate_der, vec![1, 2]);
    assert_eq!(identity.private_key_der, vec![3]);
}

#[test]
fn a_failed_generation_is_reported_with_its_cause() {
    let result = Identity::from_generated(Err(rcgen::Error::CouldNotParseKeyPair));
    match result {
        Err(IdentityError::Generation(cause)) => {
            assert_eq!(cause, rcgen::Error::CouldNotParseKeyPair)
        }
        Ok(_) => panic!("expected an error"),
    }
}
