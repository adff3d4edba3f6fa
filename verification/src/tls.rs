//! TLS identities: a certificate and its private key. A certificate is self-signed,
//! and a peer is trusted by the fingerprint of its key alone.

use vstd::prelude::*;

verus! {

/// The error type of `rcgen`.
#[verifier::external_type_specification]
#[verifier::external_body]
pub struct ExRcgenError(rcgen::Error);

/// A certificate and the private key that signed it, both in DER.
#[derive(Debug, Clone, PartialEq, Eq)]
pub struct Identity {
    pub certificate_der: Vec<u8>,
    pub private_key_der: Vec<u8>,
}

/// Why no identity was made.
#[derive(Debug)]
pub enum IdentityError {
    Generation(rcgen::Error),
}

/// Calls `rcgen::generate_simple_self_signed` and takes the certificate and the
/// private key out of its result, each of which is a DER document and so not
/// empty. The key is drawn at random, so neither is a function of `names`; which
/// names the certificate holds is not stated.
#[verifier::external_body]
fn generate_self_signed(names: Vec<String>) -> (generated: Result<(Vec<u8>, Vec<u8>), rcgen::Error>)
    ensures
        generated matches Ok(pair) ==> pair.0@.len() > 0 && pair.1@.len() > 0,
{
    let made = rcgen::generate_simple_self_signed(names)?;
    Ok((made.cert.der().to_vec(), made.signing_key.serialize_der()))
}

impl Identity {
    /// The identity made of a generated certificate and private key, or why there
    /// is none.
    pub open spec fn made_of(
        generated: Result<(Vec<u8>, Vec<u8>), rcgen::Error>,
    ) -> Result<Self, IdentityError> {
        match generated {
            Ok((certificate_der, private_key_der)) => Ok(
                Identity { certificate_der, private_key_der },
            ),
            Err(error) => Err(IdentityError::Generation(error)),
        }
    }

    /// The identity made of a generated certificate and private key, or why there
    /// is none.
    pub fn from_generated(generated: Result<(Vec<u8>, Vec<u8>), rcgen::Error>) -> (identity: Result<
        Self,
        IdentityError,
    >)
        ensures
            identity == Self::made_of(generated),
    {
        match generated {
            Ok((certificate_der, private_key_der)) => Ok(
                Identity { certificate_der, private_key_der },
            ),
            Err(error) => Err(IdentityError::Generation(error)),
        }
    }
}

/// Whether `generated` came back from the generator that was handed `names`.
pub closed spec fn generated_for(
    names: Seq<String>,
    generated: Result<(Vec<u8>, Vec<u8>), rcgen::Error>,
) -> bool {
    exists|list: Vec<String>|
        list@ == names && #[trigger] call_ensures(generate_self_signed, (list,), generated)
}

/// Hands `names` to `generate`.
fn hand_over<F: FnOnce(Vec<String>) -> Result<(Vec<u8>, Vec<u8>), rcgen::Error>>(
    generate: F,
    names: Vec<String>,
) -> (generated: Result<(Vec<u8>, Vec<u8>), rcgen::Error>)
    requires
        call_requires(generate, (names,)),
    ensures
        call_ensures(generate, (names,), generated),
{
    generate(names)
}

/// Makes a fresh identity. Its certificate names nobody: trust rests on the key.
/// The generator is handed no names, and what it gives back, a certificate with its
/// key or an error, is what is returned.
pub fn generate_self_signed_identity() -> (identity: Result<Identity, IdentityError>)
    ensures
        exists|generated: Result<(Vec<u8>, Vec<u8>), rcgen::Error>| #[trigger]
            generated_for(Seq::empty(), generated) && identity == Identity::made_of(generated),
        identity matches Ok(i) ==> i.certificate_der@.len() > 0 && i.private_key_der@.len() > 0,
{
    let generated = hand_over(generate_self_signed, Vec::new());
    proof {
        assert(generated_for(Seq::empty(), generated));
    }
    Identity::from_generated(generated)
}

} // verus!
