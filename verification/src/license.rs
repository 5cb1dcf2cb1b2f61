//! From license fields to the license text: payload, cipher, encoding.

use crate::cipher::{encrypt_bytes, encrypt_spec, lemma_encrypt_injective};
use crate::encoder::{
    encode_spec, is_symbol, lemma_encode_injective, lemma_encoded_symbols, variant_base64_encode,
};
use crate::payload::{
    build_payload, lemma_payload_count_sensitive, lemma_payload_identity_sensitive, major_of,
    minor_of, outcome_view, payload_outcome, two_components, LicenseError,
};
use vstd::prelude::*;
use vstd::string::*;
use vstd::utf8::*;

verus! {

/// The key that every encryption run starts from.
pub const SEED_KEY: u32 = 0x787;

/// The license text that belongs to a payload text: its UTF-8 bytes,
/// encrypted from the seed key, then encoded.
pub open spec fn license_of_payload(payload: Seq<char>) -> Seq<char> {
    encode_spec(encrypt_spec(SEED_KEY, encode_utf8(payload)))
}

/// What generating a license for the given fields comes to: the license text
/// of their payload, or the error where the version has no two components.
pub open spec fn license_outcome(identity: Seq<char>, version: Seq<char>, count: nat) -> Result<
    Seq<char>,
    LicenseError,
> {
    match payload_outcome(identity, version, count) {
        Ok(payload) => Ok(license_of_payload(payload)),
        Err(error) => Err(error),
    }
}

/// Generates the license text for `identity`, `version` and `count`.
///
/// The outcome is `license_outcome` of the three arguments and of nothing
/// else, so the same arguments give the same outcome on every call.
pub fn generate_license(identity: &str, version: &str, count: u32) -> (license: Result<
    String,
    LicenseError,
>)
    ensures
        outcome_view(license) == license_outcome(identity@, version@, count as nat),
{
    match build_payload(identity, version, count) {
        Ok(payload) => {
            let encrypted = encrypt_bytes(SEED_KEY, payload.as_str().as_bytes());
            Ok(variant_base64_encode(encrypted.as_slice()))
        },
        Err(error) => Err(error),
    }
}

/// Determinism: any two outcomes that `generate_license` can have for the
/// same fields are the same outcome.
pub proof fn lemma_license_deterministic(
    identity: Seq<char>,
    version: Seq<char>,
    count: nat,
    first: Result<String, LicenseError>,
    second: Result<String, LicenseError>,
)
    requires
        outcome_view(first) == license_outcome(identity, version, count),
        outcome_view(second) == license_outcome(identity, version, count),
    ensures
        outcome_view(first) == outcome_view(second),
{
}

/// Payload texts with the same license text are the same payload text.
pub proof fn lemma_license_of_payload_injective(first: Seq<char>, second: Seq<char>)
    requires
        license_of_payload(first) == license_of_payload(second),
    ensures
        first == second,
{
    lemma_encode_injective(
        encrypt_spec(SEED_KEY, encode_utf8(first)),
        encrypt_spec(SEED_KEY, encode_utf8(second)),
    );
    lemma_encrypt_injective(SEED_KEY, encode_utf8(first), encode_utf8(second));
    encode_utf8_decode_utf8(first);
    encode_utf8_decode_utf8(second);
}

/// Sensitivity: two sets of fields whose payload texts differ, or of which
/// one has a license and the other has none, do not have the same outcome.
pub proof fn lemma_license_sensitive(
    identity1: Seq<char>,
    version1: Seq<char>,
    count1: nat,
    identity2: Seq<char>,
    version2: Seq<char>,
    count2: nat,
)
    requires
        payload_outcome(identity1, version1, count1) != payload_outcome(
            identity2,
            version2,
            count2,
        ),
    ensures
        license_outcome(identity1, version1, count1) != license_outcome(
            identity2,
            version2,
            count2,
        ),
{
    let first = payload_outcome(identity1, version1, count1);
    let second = payload_outcome(identity2, version2, count2);
    if first is Ok && second is Ok {
        if license_of_payload(first->Ok_0) == license_of_payload(second->Ok_0) {
            lemma_license_of_payload_injective(first->Ok_0, second->Ok_0);
        }
    }
}

/// Another identity, with the version and the count as they were, gives
/// another license text.
pub proof fn lemma_identity_sensitive(
    identity1: Seq<char>,
    identity2: Seq<char>,
    version: Seq<char>,
    count: nat,
)
    requires
        two_components(version),
        identity1 != identity2,
    ensures
        license_outcome(identity1, version, count) != license_outcome(identity2, version, count),
{
    lemma_payload_identity_sensitive(
        identity1,
        identity2,
        major_of(version),
        minor_of(version),
        count,
    );
    lemma_license_sensitive(identity1, version, count, identity2, version, count);
}

/// Another count, with the identity and the version as they were, gives
/// another license text.
pub proof fn lemma_count_sensitive(
    identity: Seq<char>,
    version: Seq<char>,
    count1: nat,
    count2: nat,
)
    requires
        two_components(version),
        count1 != count2,
    ensures
        license_outcome(identity, version, count1) != license_outcome(identity, version, count2),
{
    lemma_payload_count_sensitive(
        identity,
        major_of(version),
        minor_of(version),
        count1,
        count2,
    );
    lemma_license_sensitive(identity, version, count1, identity, version, count2);
}

/// A license text is never empty, and each of its characters is one of the
/// first 64 symbols of the alphabet.
pub proof fn lemma_license_text_shape(payload: Seq<char>)
    requires
        payload.len() > 0,
    ensures
        license_of_payload(payload).len() > 0,
        forall|j: int|
            0 <= j < license_of_payload(payload).len() ==> is_symbol(
                #[trigger] license_of_payload(payload)[j],
            ),
{
    assert(encode_utf8(payload).len() > 0);
    lemma_encoded_symbols(encrypt_spec(SEED_KEY, encode_utf8(payload)));
}

} // verus!
