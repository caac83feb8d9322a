//! Ed25519 identities and their `did:key` DIDs.
//!
//! An identity is its 32-byte secret seed. Its public key, in multibase
//! form, is `z` followed by the base58btc encoding of the multicodec prefix
//! `[0xed, 0x01]` and the 32 key bytes; its DID is `did:key:` followed by
//! that multibase text.
use vstd::prelude::*;
use crate::external::{
    bs58_encode, ed25519_public_key, is_base58_char, ed25519_sign, hex_decode, hex_encode, random_seed,
    spec_bs58_encode, spec_ed25519_public_key, spec_ed25519_sign, spec_hex_decode_error,
};
use crate::storage::StorageError;
use crate::text::{push_char, push_str, to_owned_string};

verus! {

/// The multicodec prefix of an Ed25519 public key.
pub open spec fn ed25519_prefix() -> Seq<u8> {
    seq![0xedu8, 0x01u8]
}

/// The multibase text of the Ed25519 public key `pk`.
pub open spec fn multibase_key(pk: Seq<u8>) -> Seq<char> {
    seq!['z'] + spec_bs58_encode(ed25519_prefix() + pk)
}

/// The `did:key` DID of the Ed25519 public key `pk`.
pub open spec fn did_key(pk: Seq<u8>) -> Seq<char> {
    "did:key:"@ + multibase_key(pk)
}

/// The multibase text of a 32-byte Ed25519 public key.
pub fn encode_multibase(pub_key: &[u8; 32]) -> (r: String)
    ensures
        r@ == multibase_key(pub_key@),
        forall|i: int| 0 <= i < r@.len() ==> #[trigger] r@[i] != '#',
{
    let mut bytes: Vec<u8> = Vec::new();
    bytes.push(0xedu8);
    bytes.push(0x01u8);
    let mut i: usize = 0;
    while i < 32
        invariant
            i <= 32,
            pub_key@.len() == 32,
            bytes@ == ed25519_prefix() + pub_key@.take(i as int),
        decreases 32 - i,
    {
        bytes.push(pub_key[i]);
        proof {
            assert(pub_key@.take(i as int + 1) =~= pub_key@.take(i as int).push(pub_key@[i as int]));
            assert(bytes@ =~= ed25519_prefix() + pub_key@.take(i as int + 1));
        }
        i = i + 1;
    }
    proof {
        assert(pub_key@.take(32) =~= pub_key@);
    }
    let enc = bs58_encode(bytes.as_slice());
    let mut r = String::new();
    push_char(&mut r, 'z');
    push_str(&mut r, enc.as_str());
    proof {
        assert(Seq::<char>::empty().push('z') =~= seq!['z']);
        assert forall|i: int| 0 <= i < r@.len() implies #[trigger] r@[i] != '#' by {
            if i > 0 {
                assert(r@[i] == enc@[i - 1]);
                assert(is_base58_char(enc@[i - 1]));
            }
        }
    }
    r
}

/// The `did:key` DID of a 32-byte Ed25519 public key.
pub fn did_key_from_bytes(pub_key: &[u8; 32]) -> (r: String)
    ensures
        r@ == did_key(pub_key@),
        forall|i: int| 0 <= i < r@.len() ==> #[trigger] r@[i] != '#',
{
    let mb = encode_multibase(pub_key);
    let mut r = to_owned_string("did:key:");
    push_str(&mut r, mb.as_str());
    proof {
        reveal_strlit("did:key:");
        assert forall|i: int| 0 <= i < r@.len() implies #[trigger] r@[i] != '#' by {
            if i >= 8 {
                assert(r@[i] == mb@[i - 8]);
            }
        }
    }
    r
}

/// The lowercase hexadecimal digit for `d < 16`.
pub open spec fn hex_digit_lower(d: u8) -> char {
    if d < 10 {
        (48u8 + d) as char
    } else {
        (87u8 + d) as char
    }
}

/// Each byte as two lowercase hexadecimal digits, high nibble first.
pub open spec fn hex_lower(b: Seq<u8>) -> Seq<char>
    decreases b.len(),
{
    if b.len() == 0 {
        Seq::empty()
    } else {
        hex_lower(b.drop_last()) + seq![hex_digit_lower(b.last() / 16), hex_digit_lower(b.last() % 16)]
    }
}

/// The value of a hexadecimal digit of either case, if `c` is one.
pub open spec fn hex_value(c: char) -> Option<u8> {
    if '0' <= c && c <= '9' {
        Some((c as u32 - 48) as u8)
    } else if 'a' <= c && c <= 'f' {
        Some((c as u32 - 87) as u8)
    } else if 'A' <= c && c <= 'F' {
        Some((c as u32 - 55) as u8)
    } else {
        None
    }
}

/// Whether `s` is an even number of hexadecimal digits.
pub open spec fn is_hex_text(s: Seq<char>) -> bool {
    s.len() % 2 == 0 && forall|i: int| 0 <= i < s.len() ==> (#[trigger] hex_value(s[i])) is Some
}

/// Whether the hexadecimal text `s` spells the bytes `b`, two digits per
/// byte, high nibble first.
pub open spec fn hex_spells(s: Seq<char>, b: Seq<u8>) -> bool {
    &&& is_hex_text(s)
    &&& s.len() == 2 * b.len()
    &&& forall|i: int|
        0 <= i < b.len() ==> #[trigger] b[i] == hex_value(s[2 * i]).unwrap() * 16 + hex_value(
            s[2 * i + 1],
        ).unwrap()
}

/// The value of an ASCII hexadecimal digit byte of either case.
pub open spec fn hex_byte_value(b: u8) -> Option<u8> {
    if 48 <= b && b <= 57 {
        Some((b - 48) as u8)
    } else if 97 <= b && b <= 102 {
        Some((b - 87) as u8)
    } else if 65 <= b && b <= 70 {
        Some((b - 55) as u8)
    } else {
        None
    }
}

/// The value of one hexadecimal digit byte, if it is one.
pub fn hex_nibble(b: u8) -> (r: Option<u8>)
    ensures
        r == hex_byte_value(b),
{
    if 48 <= b && b <= 57 {
        Some(b - 48)
    } else if 97 <= b && b <= 102 {
        Some(b - 87)
    } else if 65 <= b && b <= 70 {
        Some(b - 55)
    } else {
        None
    }
}

/// Why a text is not a 32-byte seed in hexadecimal.
#[derive(Debug, Clone, PartialEq, Eq)]
pub enum SeedHexError {
    /// The text is not 64 bytes long; carries its length in bytes.
    WrongLength(usize),
    /// A byte is not a hexadecimal digit; carries the first such byte.
    InvalidCharacter(u8),
}

/// The 32 bytes spelled by the 64 UTF-8 bytes `b`, when all are
/// hexadecimal digits.
pub open spec fn seed_from_hex_bytes(b: Seq<u8>) -> Seq<u8> {
    Seq::new(32, |i: int| (hex_byte_value(b[2 * i]).unwrap() * 16 + hex_byte_value(b[2 * i + 1]).unwrap()) as u8)
}

/// Parses a seed written as 64 hexadecimal digits of either case. Fails
/// with the byte length when it is not 64, else with the first byte that is
/// not a digit.
pub fn hex_to_32_bytes(hex: &str) -> (r: Result<[u8; 32], SeedHexError>)
    ensures
        ({
            let b = vstd::utf8::encode_utf8(hex@);
            match r {
                Ok(seed) => b.len() == 64 && (forall|i: int| 0 <= i < 64 ==> (#[trigger] hex_byte_value(b[i])) is Some)
                    && seed@ == seed_from_hex_bytes(b),
                Err(SeedHexError::WrongLength(n)) => b.len() != 64 && n == b.len(),
                Err(SeedHexError::InvalidCharacter(c)) => b.len() == 64 && exists|k: int|
                    0 <= k < 64 && b[k] == c && hex_byte_value(c) is None && forall|j: int|
                        0 <= j < k ==> (#[trigger] hex_byte_value(b[j])) is Some,
            }
        }),
{
    let b = hex.as_bytes();
    if b.len() != 64 {
        return Err(SeedHexError::WrongLength(b.len()));
    }
    let mut out = [0u8; 32];
    let mut i: usize = 0;
    while i < 32
        invariant
            i <= 32,
            b@ == vstd::utf8::encode_utf8(hex@),
            b@.len() == 64,
            forall|j: int| 0 <= j < 2 * i ==> (#[trigger] hex_byte_value(b@[j])) is Some,
            forall|j: int| 0 <= j < i ==> #[trigger] out@[j] == seed_from_hex_bytes(b@)[j],
        decreases 32 - i,
    {
        let hi = match hex_nibble(b[2 * i]) {
            Some(v) => v,
            None => {
                return Err(SeedHexError::InvalidCharacter(b[2 * i]));
            },
        };
        let lo = match hex_nibble(b[2 * i + 1]) {
            Some(v) => v,
            None => {
                return Err(SeedHexError::InvalidCharacter(b[2 * i + 1]));
            },
        };
        out[i] = hi * 16 + lo;
        i = i + 1;
    }
    proof {
        assert(out@ =~= seed_from_hex_bytes(b@));
    }
    Ok(out)
}

/// An agent's Ed25519 identity: its secret seed.
#[derive(Clone)]
pub struct AgentIdentity {
    seed: [u8; 32],
}

impl AgentIdentity {
    /// The secret seed.
    pub closed spec fn seed_bytes(&self) -> Seq<u8> {
        self.seed@
    }

    /// The public key.
    pub open spec fn public_key(&self) -> Seq<u8> {
        spec_ed25519_public_key(self.seed_bytes())
    }

    /// A fresh identity from the operating system's random source.
    pub fn generate() -> (r: AgentIdentity)
        ensures
            r.seed_bytes().len() == 32,
    {
        AgentIdentity { seed: random_seed() }
    }

    /// The identity with this secret seed.
    pub fn from_seed(seed: &[u8; 32]) -> (r: AgentIdentity)
        ensures
            r.seed_bytes() == seed@,
    {
        AgentIdentity { seed: *seed }
    }

    /// The identity whose seed is written as 64 hexadecimal digits.
    pub fn from_seed_hex(seed_hex: &str) -> (r: Result<AgentIdentity, SeedHexError>)
        ensures
            match r {
                Ok(id) => id.seed_bytes() == seed_from_hex_bytes(vstd::utf8::encode_utf8(seed_hex@))
                    && vstd::utf8::encode_utf8(seed_hex@).len() == 64,
                Err(_) => true,
            },
            r is Ok <==> (vstd::utf8::encode_utf8(seed_hex@).len() == 64 && forall|i: int|
                0 <= i < 64 ==> (#[trigger] hex_byte_value(vstd::utf8::encode_utf8(seed_hex@)[i])) is Some),
    {
        match hex_to_32_bytes(seed_hex) {
            Ok(seed) => Ok(AgentIdentity { seed }),
            Err(e) => Err(e),
        }
    }

    /// The secret seed.
    pub fn seed(&self) -> (r: [u8; 32])
        ensures
            r@ == self.seed_bytes(),
    {
        self.seed
    }

    /// The secret seed as 64 lowercase hexadecimal digits.
    pub fn seed_hex(&self) -> (r: String)
        ensures
            r@ == hex_lower(self.seed_bytes()),
    {
        hex_encode(self.seed.as_slice())
    }

    /// The identity's `did:key` DID.
    pub fn did(&self) -> (r: String)
        ensures
            r@ == did_key(self.public_key()),
    {
        let pk = ed25519_public_key(&self.seed);
        did_key_from_bytes(&pk)
    }

    /// The public key in multibase form.
    pub fn public_key_multibase(&self) -> (r: String)
        ensures
            r@ == multibase_key(self.public_key()),
    {
        let pk = ed25519_public_key(&self.seed);
        encode_multibase(&pk)
    }

    /// The Ed25519 signature of `message`.
    pub fn sign(&self, message: &[u8]) -> (r: Vec<u8>)
        ensures
            r@ == spec_ed25519_sign(self.seed_bytes(), message@),
            r@.len() == 64,
    {
        let sig = ed25519_sign(&self.seed, message);
        let mut r: Vec<u8> = Vec::new();
        let mut i: usize = 0;
        while i < 64
            invariant
                i <= 64,
                sig@.len() == 64,
                r@ == sig@.take(i as int),
            decreases 64 - i,
        {
            r.push(sig[i]);
            proof {
                assert(sig@.take(i as int + 1) =~= sig@.take(i as int).push(sig@[i as int]));
            }
            i = i + 1;
        }
        proof {
            assert(sig@.take(64) =~= sig@);
        }
        r
    }
}

/// The node configuration key under which the node's seed is kept.
pub const SEED_KEY: &'static str = "node_identity_seed";

/// The node's Ed25519 identity: its secret seed.
pub struct NodeIdentity {
    seed: [u8; 32],
}

/// The message of a stored seed that is not hexadecimal.
pub open spec fn invalid_seed_message(stored: Seq<char>) -> Seq<char> {
    "invalid identity seed: "@ + spec_hex_decode_error(stored)
}

impl NodeIdentity {
    /// The secret seed.
    pub closed spec fn seed_bytes(&self) -> Seq<u8> {
        self.seed@
    }

    /// The public key.
    pub open spec fn public_key(&self) -> Seq<u8> {
        spec_ed25519_public_key(self.seed_bytes())
    }

    /// The identity whose seed was stored as hexadecimal text. Fails with
    /// `Internal` when the text is not hexadecimal or not 32 bytes.
    pub fn from_stored_seed(stored: &str) -> (r: Result<NodeIdentity, StorageError>)
        ensures
            match r {
                Ok(id) => hex_spells(stored@, id.seed_bytes()) && id.seed_bytes().len() == 32,
                Err(StorageError::Internal(m)) => (!is_hex_text(stored@) && m@
                    == invalid_seed_message(stored@)) || (is_hex_text(stored@) && stored@.len()
                    != 64 && m@ == "identity seed must be 32 bytes"@),
                Err(_) => false,
            },
    {
        match hex_decode(stored) {
            Err(e) => {
                let mut m = to_owned_string("invalid identity seed: ");
                push_str(&mut m, e.as_str());
                Err(StorageError::Internal(m))
            },
            Ok(bytes) => {
                if bytes.len() != 32 {
                    return Err(StorageError::Internal(to_owned_string("identity seed must be 32 bytes")));
                }
                let mut seed = [0u8; 32];
                let mut i: usize = 0;
                while i < 32
                    invariant
                        i <= 32,
                        bytes@.len() == 32,
                        forall|j: int| 0 <= j < i ==> #[trigger] seed@[j] == bytes@[j],
                    decreases 32 - i,
                {
                    seed[i] = bytes[i];
                    i = i + 1;
                }
                proof {
                    assert(seed@ =~= bytes@);
                }
                Ok(NodeIdentity { seed })
            },
        }
    }

    /// A fresh identity, and its seed as lowercase hexadecimal text to store.
    pub fn generate() -> (r: (NodeIdentity, String))
        ensures
            r.1@ == hex_lower(r.0.seed_bytes()),
            r.0.seed_bytes().len() == 32,
    {
        let seed = random_seed();
        let text = hex_encode(seed.as_slice());
        (NodeIdentity { seed }, text)
    }

    /// Loads the identity from the stored seed text, or, when none is
    /// stored, makes a fresh one and returns the seed text that must be
    /// stored under [`SEED_KEY`].
    pub fn load_or_generate(stored: Option<&str>) -> (r: Result<
        (NodeIdentity, Option<String>),
        StorageError,
    >)
        ensures
            match stored {
                Some(s) => match r {
                    Ok((id, to_store)) => to_store is None && hex_spells(s@, id.seed_bytes())
                        && id.seed_bytes().len() == 32,
                    Err(StorageError::Internal(m)) => (!is_hex_text(s@) && m@ == invalid_seed_message(
                        s@,
                    )) || (is_hex_text(s@) && s@.len() != 64 && m@
                        == "identity seed must be 32 bytes"@),
                    Err(_) => false,
                },
                None => r matches Ok((id, Some(t))) && t@ == hex_lower(id.seed_bytes())
                    && id.seed_bytes().len() == 32,
            },
    {
        match stored {
            Some(s) => match NodeIdentity::from_stored_seed(s) {
                Ok(id) => Ok((id, None)),
                Err(e) => Err(e),
            },
            None => {
                let (id, text) = NodeIdentity::generate();
                Ok((id, Some(text)))
            },
        }
    }

    /// The node's `did:key` DID.
    pub fn did(&self) -> (r: String)
        ensures
            r@ == did_key(self.public_key()),
    {
        let pk = ed25519_public_key(&self.seed);
        did_key_from_bytes(&pk)
    }

    /// The node's public key in multibase form.
    pub fn public_key_multibase(&self) -> (r: String)
        ensures
            r@ == multibase_key(self.public_key()),
    {
        let pk = ed25519_public_key(&self.seed);
        encode_multibase(&pk)
    }

    /// The secret seed, for signing outbound requests.
    pub fn seed(&self) -> (r: [u8; 32])
        ensures
            r@ == self.seed_bytes(),
    {
        self.seed
    }
}

/// The lowercase text of `b` has two digits per byte: the high and the low
/// nibble of each byte, in order.
proof fn lemma_hex_lower_digits(b: Seq<u8>)
    ensures
        hex_lower(b).len() == 2 * b.len(),
        forall|i: int|
            0 <= i < b.len() ==> hex_lower(b)[2 * i] == hex_digit_lower(#[trigger] b[i] / 16)
                && hex_lower(b)[2 * i + 1] == hex_digit_lower(b[i] % 16),
    decreases b.len(),
{
    if b.len() > 0 {
        lemma_hex_lower_digits(b.drop_last());
        assert forall|i: int| 0 <= i < b.len() implies hex_lower(b)[2 * i] == hex_digit_lower(
            #[trigger] b[i] / 16,
        ) && hex_lower(b)[2 * i + 1] == hex_digit_lower(b[i] % 16) by {
            if i < b.len() - 1 {
                assert(b.drop_last()[i] == b[i]);
            }
        }
    }
}

/// A seed written as lowercase hexadecimal text reads back as the same
/// seed: the text is hexadecimal, 64 digits long for a 32-byte seed, and
/// the only bytes it spells are the seed's. So an identity stored by
/// `NodeIdentity::generate` loads again with the same seed and DID.
pub proof fn lemma_seed_text_round_trip(seed: Seq<u8>)
    ensures
        is_hex_text(hex_lower(seed)),
        hex_lower(seed).len() == 2 * seed.len(),
        forall|b: Seq<u8>| #[trigger] hex_spells(hex_lower(seed), b) ==> b == seed,
{
    lemma_hex_lower_digits(seed);
    let s = hex_lower(seed);
    assert forall|k: int| 0 <= k < s.len() implies (#[trigger] hex_value(s[k])) is Some by {
        let i = k / 2;
        assert(0 <= i < seed.len());
        if k == 2 * i {
            assert(s[k] == hex_digit_lower(seed[i] / 16));
        } else {
            assert(k == 2 * i + 1);
            assert(s[k] == hex_digit_lower(seed[i] % 16));
        }
    }
    assert forall|b: Seq<u8>| #[trigger] hex_spells(s, b) implies b == seed by {
        assert forall|i: int| 0 <= i < b.len() implies b[i] == seed[i] by {
            let h = seed[i] / 16;
            let l = seed[i] % 16;
            assert(s[2 * i] == hex_digit_lower(h));
            assert(s[2 * i + 1] == hex_digit_lower(l));
            assert(hex_value(hex_digit_lower(h)) == Some(h));
            assert(hex_value(hex_digit_lower(l)) == Some(l));
            assert(b[i] == h * 16 + l);
        }
        assert(b =~= seed);
    }
}

} // verus!
