//! Ed25519 proofs on units.
//!
//! A proof signs the canonical (RFC 8785) JSON bytes of the unit without its
//! `proof` field. Producing those bytes is serialisation, which the caller
//! does; the functions here take them as `payload`, together with the error
//! text when canonicalisation failed. The proof's `method` is `{did}#{did}`
//! and its `value` is `z` followed by the base58btc signature.
use vstd::prelude::*;
use crate::external::{
    bs58_decode, bs58_encode, ed25519_key_check, ed25519_sign, ed25519_verify, is_base58_char,
    now_rfc3339, spec_bs58_decode_error, spec_bs58_encode, spec_ed25519_key_check,
    spec_ed25519_public_key, spec_ed25519_sign, spec_ed25519_verifies, spec_rfc3339_instant,
};
use crate::identity::{did_key, ed25519_prefix, multibase_key};
use crate::text::{before_first, before_first_char, is_prefix, push_char, push_str, strip_prefix_str, to_owned_string};
use crate::types::{Proof, SemanticUnit, UnitView};

verus! {

/// Why a unit could not be signed.
#[derive(Debug, Clone, PartialEq, Eq)]
pub enum SigningError {
    /// The unit already has a proof.
    AlreadySigned,
    /// Canonicalisation failed; carries its error text.
    Canonicalization(String),
}

/// Why a unit's proof does not verify.
#[derive(Debug, Clone, PartialEq, Eq)]
pub enum ProofError {
    /// The unit has no proof.
    ProofMissing,
    /// The proof's method is not a usable `did:key`.
    InvalidMethod(String),
    /// The proof's value is not a base58btc signature.
    DecodingFailed(String),
    /// The signature does not verify.
    VerificationFailed,
    /// Canonicalisation failed; carries its error text.
    Canonicalization(String),
}

/// What decoding a multibase Ed25519 public key gives.
pub enum KeyDecoding {
    /// The 32 key bytes.
    Key(Seq<u8>),
    /// The text does not start with `z`.
    MissingZ,
    /// The rest is not base58; carries the decoder's error text.
    Base58(Seq<char>),
    /// The bytes do not start with the Ed25519 multicodec prefix.
    MissingPrefix,
    /// The key is not 32 bytes.
    WrongLength,
    /// The bytes are not a usable key; carries the key parser's error text.
    InvalidKey(Seq<char>),
}

/// Why a multibase Ed25519 public key could not be decoded.
#[derive(Debug, Clone, PartialEq, Eq)]
pub enum KeyDecodeError {
    /// The text does not start with `z`.
    MissingZ,
    /// The rest is not base58; carries the decoder's error text.
    Base58(String),
    /// The bytes do not start with the Ed25519 multicodec prefix.
    MissingPrefix,
    /// The key is not 32 bytes.
    WrongLength,
    /// The bytes are not a usable key; carries the key parser's error text.
    InvalidKey(String),
}

/// Whether `t` is the base58 encoding of some bytes.
pub open spec fn is_bs58(t: Seq<char>) -> bool {
    exists|b: Seq<u8>| spec_bs58_encode(b) == t
}

/// The bytes whose base58 encoding is `t`.
pub open spec fn bs58_bytes(t: Seq<char>) -> Seq<u8> {
    choose|b: Seq<u8>| spec_bs58_encode(b) == t
}

/// What decoding the multibase text `mb` as an Ed25519 public key gives.
pub open spec fn key_decoding(mb: Seq<char>) -> KeyDecoding {
    if mb.len() == 0 || mb[0] != 'z' {
        KeyDecoding::MissingZ
    } else if !is_bs58(mb.drop_first()) {
        KeyDecoding::Base58(spec_bs58_decode_error(mb.drop_first()))
    } else {
        let b = bs58_bytes(mb.drop_first());
        if b.len() < 2 || b[0] != 0xedu8 || b[1] != 0x01u8 {
            KeyDecoding::MissingPrefix
        } else if b.len() != 34 {
            KeyDecoding::WrongLength
        } else {
            match spec_ed25519_key_check(b.skip(2)) {
                Ok(()) => KeyDecoding::Key(b.skip(2)),
                Err(e) => KeyDecoding::InvalidKey(e),
            }
        }
    }
}

/// The decoding of a result of [`decode_ed25519_multibase`].
pub open spec fn key_result(r: Result<[u8; 32], KeyDecodeError>) -> KeyDecoding {
    match r {
        Ok(k) => KeyDecoding::Key(k@),
        Err(KeyDecodeError::MissingZ) => KeyDecoding::MissingZ,
        Err(KeyDecodeError::Base58(e)) => KeyDecoding::Base58(e@),
        Err(KeyDecodeError::MissingPrefix) => KeyDecoding::MissingPrefix,
        Err(KeyDecodeError::WrongLength) => KeyDecoding::WrongLength,
        Err(KeyDecodeError::InvalidKey(e)) => KeyDecoding::InvalidKey(e@),
    }
}

/// The decoded bytes of `t`, given the decoder's result on it.
proof fn lemma_bs58_decoded(t: Seq<char>, d: Seq<u8>)
    requires
        spec_bs58_encode(d) == t,
        forall|b: Seq<u8>| #[trigger] spec_bs58_encode(b) == t ==> b == d,
    ensures
        is_bs58(t),
        bs58_bytes(t) == d,
{
    assert(spec_bs58_encode(d) == t);
}

/// Decodes a multibase (`z` + base58btc) Ed25519 public key: the multicodec
/// prefix `[0xed, 0x01]` followed by the 32 key bytes.
pub fn decode_ed25519_multibase(mb: &str) -> (r: Result<[u8; 32], KeyDecodeError>)
    ensures
        key_result(r) == key_decoding(mb@),
        forall|pk: Seq<u8>|
            mb@ == #[trigger] multibase_key(pk) && pk.len() == 32 && spec_ed25519_key_check(pk) is Ok
                ==> (r matches Ok(k) && k@ == pk),
{
    let t = match strip_prefix_str(mb, "z") {
        Some(t) => t,
        None => {
            proof {
                reveal_strlit("z");
                if mb@.len() > 0 && mb@[0] == 'z' {
                    assert(mb@.take(1) =~= "z"@);
                }
            }
            return Err(KeyDecodeError::MissingZ);
        },
    };
    proof {
        reveal_strlit("z");
        assert(mb@.take(1)[0] == 'z');
        assert(t@ =~= mb@.drop_first());
    }
    let decoded = match bs58_decode(t.as_str()) {
        Ok(d) => d,
        Err(e) => {
            proof {
                assert forall|pk: Seq<u8>| !(mb@ == #[trigger] multibase_key(pk)) by {
                    if mb@ == multibase_key(pk) {
                        assert(mb@.drop_first() =~= spec_bs58_encode(ed25519_prefix() + pk));
                    }
                }
            }
            return Err(KeyDecodeError::Base58(e));
        },
    };
    proof {
        lemma_bs58_decoded(t@, decoded@);
        assert forall|pk: Seq<u8>|
            mb@ == #[trigger] multibase_key(pk) && pk.len() == 32 implies decoded@ == ed25519_prefix()
            + pk by {
            assert(mb@.drop_first() =~= spec_bs58_encode(ed25519_prefix() + pk));
        }
    }
    if decoded.len() < 2 || decoded[0] != 0xedu8 || decoded[1] != 0x01u8 {
        return Err(KeyDecodeError::MissingPrefix);
    }
    if decoded.len() != 34 {
        return Err(KeyDecodeError::WrongLength);
    }
    let mut key = [0u8; 32];
    let mut i: usize = 0;
    while i < 32
        invariant
            i <= 32,
            decoded@.len() == 34,
            forall|j: int| 0 <= j < i ==> #[trigger] key@[j] == decoded@[j + 2],
        decreases 32 - i,
    {
        key[i] = decoded[i + 2];
        i = i + 1;
    }
    proof {
        assert(key@ =~= decoded@.skip(2));
        assert forall|pk: Seq<u8>|
            mb@ == #[trigger] multibase_key(pk) && pk.len() == 32 implies key@ == pk by {
            assert(decoded@ == ed25519_prefix() + pk);
            assert(decoded@.skip(2) =~= pk);
        }
    }
    match ed25519_key_check(&key) {
        Ok(()) => Ok(key),
        Err(e) => Err(KeyDecodeError::InvalidKey(e)),
    }
}

/// What decoding a proof value (`z` + base58btc, 64 bytes) gives.
pub enum SigDecoding {
    /// The 64 signature bytes.
    Sig(Seq<u8>),
    /// The value does not start with `z`.
    MissingZ,
    /// The rest is not base58; carries the decoder's error text.
    Base58(Seq<char>),
    /// The signature is not 64 bytes.
    WrongLength,
}

/// What decoding the signature text `v` gives.
pub open spec fn sig_decoding(v: Seq<char>) -> SigDecoding {
    if v.len() == 0 || v[0] != 'z' {
        SigDecoding::MissingZ
    } else if !is_bs58(v.drop_first()) {
        SigDecoding::Base58(spec_bs58_decode_error(v.drop_first()))
    } else if bs58_bytes(v.drop_first()).len() != 64 {
        SigDecoding::WrongLength
    } else {
        SigDecoding::Sig(bs58_bytes(v.drop_first()))
    }
}

/// Why a signature text could not be decoded.
#[derive(Debug, Clone, PartialEq, Eq)]
pub enum SigDecodeError {
    /// The value does not start with `z`.
    MissingZ,
    /// The rest is not base58; carries the decoder's error text.
    Base58(String),
    /// The signature is not 64 bytes.
    WrongLength,
}

/// The decoding of a result of [`decode_signature`].
pub open spec fn sig_result(r: Result<[u8; 64], SigDecodeError>) -> SigDecoding {
    match r {
        Ok(s) => SigDecoding::Sig(s@),
        Err(SigDecodeError::MissingZ) => SigDecoding::MissingZ,
        Err(SigDecodeError::Base58(e)) => SigDecoding::Base58(e@),
        Err(SigDecodeError::WrongLength) => SigDecoding::WrongLength,
    }
}

/// Decodes a signature written as `z` + base58btc of 64 bytes.
pub fn decode_signature(v: &str) -> (r: Result<[u8; 64], SigDecodeError>)
    ensures
        sig_result(r) == sig_decoding(v@),
        forall|sig: Seq<u8>|
            v@ == #[trigger] proof_value(sig) && sig.len() == 64 ==> (r matches Ok(s) && s@ == sig),
{
    let t = match strip_prefix_str(v, "z") {
        Some(t) => t,
        None => {
            proof {
                reveal_strlit("z");
                if v@.len() > 0 && v@[0] == 'z' {
                    assert(v@.take(1) =~= "z"@);
                }
            }
            return Err(SigDecodeError::MissingZ);
        },
    };
    proof {
        reveal_strlit("z");
        assert(v@.take(1)[0] == 'z');
        assert(t@ =~= v@.drop_first());
    }
    let decoded = match bs58_decode(t.as_str()) {
        Ok(d) => d,
        Err(e) => {
            proof {
                assert forall|sig: Seq<u8>| !(v@ == #[trigger] proof_value(sig)) by {
                    if v@ == proof_value(sig) {
                        assert(v@.drop_first() =~= spec_bs58_encode(sig));
                    }
                }
            }
            return Err(SigDecodeError::Base58(e));
        },
    };
    proof {
        lemma_bs58_decoded(t@, decoded@);
        assert forall|sig: Seq<u8>| v@ == #[trigger] proof_value(sig) implies decoded@ == sig by {
            assert(v@.drop_first() =~= spec_bs58_encode(sig));
        }
    }
    if decoded.len() != 64 {
        return Err(SigDecodeError::WrongLength);
    }
    let mut sig = [0u8; 64];
    let mut i: usize = 0;
    while i < 64
        invariant
            i <= 64,
            decoded@.len() == 64,
            forall|j: int| 0 <= j < i ==> #[trigger] sig@[j] == decoded@[j],
        decreases 64 - i,
    {
        sig[i] = decoded[i];
        i = i + 1;
    }
    proof {
        assert(sig@ =~= decoded@);
    }
    Ok(sig)
}

/// The proof value for the signature `sig`: `z` and its base58 encoding.
pub open spec fn proof_value(sig: Seq<u8>) -> Seq<char> {
    seq!['z'] + spec_bs58_encode(sig)
}

/// The proof method for the DID `did`: `{did}#{did}`.
pub open spec fn proof_method(did: Seq<char>) -> Seq<char> {
    did.push('#') + did
}

/// What verifying a proof gives.
pub enum ProofOutcome {
    /// The proof verifies.
    Valid,
    /// The unit has no proof.
    ProofMissing,
    /// The method is not a usable `did:key`; carries the message.
    InvalidMethod(Seq<char>),
    /// The value is not a signature; carries the message.
    DecodingFailed(Seq<char>),
    /// The signature does not verify.
    VerificationFailed,
    /// Canonicalisation failed; carries its error text.
    Canonicalization(Seq<char>),
}

/// The outcome of a result of [`verify_proof`].
pub open spec fn proof_result(r: Result<(), ProofError>) -> ProofOutcome {
    match r {
        Ok(()) => ProofOutcome::Valid,
        Err(ProofError::ProofMissing) => ProofOutcome::ProofMissing,
        Err(ProofError::InvalidMethod(m)) => ProofOutcome::InvalidMethod(m@),
        Err(ProofError::DecodingFailed(m)) => ProofOutcome::DecodingFailed(m@),
        Err(ProofError::VerificationFailed) => ProofOutcome::VerificationFailed,
        Err(ProofError::Canonicalization(m)) => ProofOutcome::Canonicalization(m@),
    }
}

/// The view of a canonicalisation result.
pub open spec fn payload_view(p: Result<Vec<u8>, String>) -> Result<Seq<u8>, Seq<char>> {
    match p {
        Ok(b) => Ok(b@),
        Err(e) => Err(e@),
    }
}

/// What verifying the proof of `u` gives, when canonicalising `u` without its
/// proof gave `payload`.
pub open spec fn proof_outcome(u: UnitView, payload: Result<Seq<u8>, Seq<char>>) -> ProofOutcome {
    match u.proof {
        None => ProofOutcome::ProofMissing,
        Some((method, _created, value)) => {
            let did = before_first(method, '#');
            if !is_prefix("did:key:"@, did) {
                ProofOutcome::InvalidMethod("not a did:key: "@ + method)
            } else {
                match key_decoding(did.skip(8)) {
                    KeyDecoding::MissingZ => ProofOutcome::InvalidMethod(
                        "multibase must start with 'z'"@,
                    ),
                    KeyDecoding::Base58(e) => ProofOutcome::InvalidMethod(
                        "base58 decode failed: "@ + e,
                    ),
                    KeyDecoding::MissingPrefix => ProofOutcome::InvalidMethod(
                        "missing ed25519 multicodec prefix [0xed, 0x01]"@,
                    ),
                    KeyDecoding::WrongLength => ProofOutcome::InvalidMethod("key must be 32 bytes"@),
                    KeyDecoding::InvalidKey(e) => ProofOutcome::InvalidMethod(
                        "invalid Ed25519 key: "@ + e,
                    ),
                    KeyDecoding::Key(pk) => match payload {
                        Err(e) => ProofOutcome::Canonicalization(e),
                        Ok(p) => match sig_decoding(value) {
                            SigDecoding::MissingZ => ProofOutcome::DecodingFailed(
                                "value must start with 'z'"@,
                            ),
                            SigDecoding::Base58(e) => ProofOutcome::DecodingFailed(
                                "bs58 decode failed: "@ + e,
                            ),
                            SigDecoding::WrongLength => ProofOutcome::DecodingFailed(
                                "signature must be exactly 64 bytes"@,
                            ),
                            SigDecoding::Sig(sig) => if spec_ed25519_verifies(pk, p, sig) {
                                ProofOutcome::Valid
                            } else {
                                ProofOutcome::VerificationFailed
                            },
                        },
                    },
                }
            }
        },
    }
}

/// Whether the proof of `u` was made with the secret seed `seed` over
/// `payload`, under the seed's own `did:key`.
pub open spec fn signed_with(u: UnitView, seed: Seq<u8>, payload: Seq<u8>) -> bool {
    let pk = spec_ed25519_public_key(seed);
    &&& seed.len() == 32
    &&& pk.len() == 32
    &&& spec_ed25519_key_check(pk) is Ok
    &&& spec_ed25519_sign(seed, payload).len() == 64
    &&& forall|i: int| 0 <= i < did_key(pk).len() ==> #[trigger] did_key(pk)[i] != '#'
    &&& u.proof matches Some((method, _created, value)) && method == proof_method(did_key(pk))
        && value == proof_value(spec_ed25519_sign(seed, payload))
}

/// The method `{did}#{did}` of a `did:key` DID without `#` names that DID,
/// and the DID's multibase part follows its `did:key:` prefix.
proof fn lemma_signed_method(pk: Seq<u8>)
    requires
        forall|i: int| 0 <= i < did_key(pk).len() ==> #[trigger] did_key(pk)[i] != '#',
    ensures
        before_first(proof_method(did_key(pk)), '#') == did_key(pk),
        is_prefix("did:key:"@, did_key(pk)),
        did_key(pk).skip(8) == multibase_key(pk),
{
    reveal_strlit("did:key:");
    let d = did_key(pk);
    crate::text::lemma_first_index_after(d, '#', d);
    assert(d.push('#') + d =~= proof_method(d));
    assert(d.take(8) =~= "did:key:"@);
    assert(d.skip(8) =~= multibase_key(pk));
}

/// Signs `unit` in place with the secret seed `seed` under `did`, over the
/// canonical bytes `payload`. A unit that already has a proof is refused.
pub fn sign_unit(
    unit: &mut SemanticUnit,
    seed: &[u8; 32],
    did: &str,
    payload: Result<Vec<u8>, String>,
) -> (r: Result<(), SigningError>)
    ensures
        old(unit)@.proof is Some ==> r == Err::<(), SigningError>(SigningError::AlreadySigned)
            && final(unit)@ == old(unit)@,
        old(unit)@.proof is None ==> match payload {
            Err(e) => r == Err::<(), SigningError>(SigningError::Canonicalization(e))
                && final(unit)@ == old(unit)@,
            Ok(p) => r is Ok && (final(unit)@.proof matches Some((method, created, value))
                && method == proof_method(did@) && spec_rfc3339_instant(created) is Some
                && value == proof_value(
                spec_ed25519_sign(seed@, p@),
            )) && final(unit)@ == (UnitView { proof: final(unit)@.proof, ..old(unit)@ }),
        },
{
    if unit.proof.is_some() {
        return Err(SigningError::AlreadySigned);
    }
    let p = match payload {
        Ok(p) => p,
        Err(e) => {
            return Err(SigningError::Canonicalization(e));
        },
    };
    let sig = ed25519_sign(seed, p.as_slice());
    let enc = bs58_encode(sig.as_slice());
    let mut value = String::new();
    push_char(&mut value, 'z');
    push_str(&mut value, enc.as_str());
    let mut method = to_owned_string(did);
    push_char(&mut method, '#');
    push_str(&mut method, did);
    proof {
        assert(Seq::<char>::empty().push('z') + enc@ =~= proof_value(sig@));
    }
    unit.proof = Some(Proof { method, created: now_rfc3339(), value });
    Ok(())
}

/// Verifies the proof of `unit`, given the canonical bytes of the unit
/// without its proof. A proof made by [`sign_unit`] with a seed under that
/// seed's own `did:key` verifies.
pub fn verify_proof(unit: &SemanticUnit, payload: Result<Vec<u8>, String>) -> (r: Result<
    (),
    ProofError,
>)
    ensures
        proof_result(r) == proof_outcome(unit@, payload_view(payload)),
        (payload matches Ok(p) && exists|seed: Seq<u8>| signed_with(unit@, seed, p@)) ==> r is Ok,
{
    let attached = &unit.proof;
    let pf = match attached {
        Some(p) => p,
        None => {
            return Err(ProofError::ProofMissing);
        },
    };
    proof {
        assert(unit@.proof == Some((pf.method@, pf.created@, pf.value@)));
        if payload is Ok && exists|seed: Seq<u8>| signed_with(unit@, seed, payload_view(payload)->Ok_0) {
            let seed = choose|seed: Seq<u8>| signed_with(unit@, seed, payload_view(payload)->Ok_0);
            lemma_signed_method(spec_ed25519_public_key(seed));
        }
    }
    let did = before_first_char(pf.method.as_str(), '#');
    let mb = match strip_prefix_str(did.as_str(), "did:key:") {
        Some(m) => m,
        None => {
            let mut m = to_owned_string("not a did:key: ");
            push_str(&mut m, pf.method.as_str());
            return Err(ProofError::InvalidMethod(m));
        },
    };
    let ghost pk_decoding = key_decoding(mb@);
    proof {
        reveal_strlit("did:key:");
    }
    let key = match decode_ed25519_multibase(mb.as_str()) {
        Ok(k) => k,
        Err(KeyDecodeError::MissingZ) => {
            return Err(ProofError::InvalidMethod(to_owned_string("multibase must start with 'z'")));
        },
        Err(KeyDecodeError::Base58(e)) => {
            let mut m = to_owned_string("base58 decode failed: ");
            push_str(&mut m, e.as_str());
            return Err(ProofError::InvalidMethod(m));
        },
        Err(KeyDecodeError::MissingPrefix) => {
            return Err(
                ProofError::InvalidMethod(
                    to_owned_string("missing ed25519 multicodec prefix [0xed, 0x01]"),
                ),
            );
        },
        Err(KeyDecodeError::WrongLength) => {
            return Err(ProofError::InvalidMethod(to_owned_string("key must be 32 bytes")));
        },
        Err(KeyDecodeError::InvalidKey(e)) => {
            let mut m = to_owned_string("invalid Ed25519 key: ");
            push_str(&mut m, e.as_str());
            return Err(ProofError::InvalidMethod(m));
        },
    };
    let p = match payload {
        Ok(p) => p,
        Err(e) => {
            return Err(ProofError::Canonicalization(e));
        },
    };
    let sig = match decode_signature(pf.value.as_str()) {
        Ok(s) => s,
        Err(SigDecodeError::MissingZ) => {
            return Err(ProofError::DecodingFailed(to_owned_string("value must start with 'z'")));
        },
        Err(SigDecodeError::Base58(e)) => {
            let mut m = to_owned_string("bs58 decode failed: ");
            push_str(&mut m, e.as_str());
            return Err(ProofError::DecodingFailed(m));
        },
        Err(SigDecodeError::WrongLength) => {
            return Err(
                ProofError::DecodingFailed(to_owned_string("signature must be exactly 64 bytes")),
            );
        },
    };
    if ed25519_verify(&key, p.as_slice(), &sig) {
        Ok(())
    } else {
        Err(ProofError::VerificationFailed)
    }
}

} // verus!
