//! 32-byte hashes: epoch ids and Merkle roots.

use crate::hex;
use crate::hex::HexError;
use vstd::prelude::*;

verus! {

/// A 32-byte hash.
#[derive(Clone, Copy, Debug, Eq, Hash)]
pub struct H256(pub [u8; 32]);

/// The id of an epoch: the hash of its main-chain block.
pub type EpochId = H256;

/// The root of a Merkle Patricia trie.
pub type MerkleHash = H256;

/// The Keccak-256 digest of the empty byte string.
pub const KECCAK_EMPTY: [u8; 32] = [
    0xc5, 0xd2, 0x46, 0x01, 0x86, 0xf7, 0x23, 0x3c, 0x92, 0x7e, 0x7d, 0xb2, 0xdc, 0xc7, 0x03, 0xc0,
    0xe5, 0x00, 0xb6, 0x53, 0xca, 0x82, 0x27, 0x3b, 0x7b, 0xfa, 0xd8, 0x04, 0x5d, 0x85, 0xa4, 0x70,
];

/// The bytes of the hash that stands for no value.
pub const ZERO_BYTES: [u8; 32] = [
    0, 0, 0, 0, 0, 0, 0, 0, 0, 0, 0, 0, 0, 0, 0, 0, 0, 0, 0, 0, 0, 0, 0, 0, 0, 0, 0, 0, 0, 0, 0, 0,
];

/// The epoch before genesis, whose snapshot is empty.
pub open spec fn null_epoch_spec() -> EpochId {
    H256(KECCAK_EMPTY)
}

/// The epoch before genesis, whose snapshot is empty.
#[verifier::when_used_as_spec(null_epoch_spec)]
pub fn null_epoch() -> (r: EpochId)
    ensures
        r == null_epoch_spec(),
{
    H256(KECCAK_EMPTY)
}

/// The Merkle root of the empty trie.
pub open spec fn merkle_null_node_spec() -> MerkleHash {
    H256(KECCAK_EMPTY)
}

/// The Merkle root of the empty trie.
#[verifier::when_used_as_spec(merkle_null_node_spec)]
pub fn merkle_null_node() -> (r: MerkleHash)
    ensures
        r == merkle_null_node_spec(),
{
    H256(KECCAK_EMPTY)
}

impl View for H256 {
    type V = Seq<u8>;

    open spec fn view(&self) -> Seq<u8> {
        self.0@
    }
}

impl vstd::std_specs::cmp::PartialEqSpecImpl for H256 {
    open spec fn obeys_eq_spec() -> bool {
        true
    }

    open spec fn eq_spec(&self, other: &H256) -> bool {
        *self == *other
    }
}

impl PartialEq for H256 {
    fn eq(&self, other: &H256) -> (r: bool) {
        let mut i: usize = 0;
        while i < 32
            invariant
                i <= 32,
                forall|j: int| 0 <= j < i ==> self.0[j] == other.0[j],
            decreases 32 - i,
        {
            if self.0[i] != other.0[i] {
                return false;
            }
            i = i + 1;
        }
        proof {
            assert(self.0 =~= other.0);
        }
        true
    }
}

/// Two hashes with the same bytes are the same hash.
pub proof fn h256_determined_by_bytes(a: H256, b: H256)
    ensures
        a@ == b@ <==> a == b,
{
    if a@ == b@ {
        assert forall|i: int| 0 <= i < 32 implies a.0[i] == b.0[i] by {
            assert(a@[i] == b@[i]);
        }
        assert(a.0 =~= b.0);
    }
}

impl H256 {
    /// The hash of 32 zero bytes.
    pub open spec fn zero_spec() -> H256 {
        H256(ZERO_BYTES)
    }

    /// The hash of 32 zero bytes.
    #[verifier::when_used_as_spec(zero_spec)]
    pub fn zero() -> (r: H256)
        ensures
            r == H256::zero_spec(),
    {
        H256(ZERO_BYTES)
    }

    /// The hash that has the given bytes.
    pub open spec fn of_bytes(bytes: Seq<u8>) -> H256 {
        choose|h: H256| h@ == bytes
    }

    /// A hash is the one of its bytes.
    pub proof fn of_bytes_is_exact(h: H256)
        ensures
            H256::of_bytes(h@) == h,
    {
        h256_determined_by_bytes(H256::of_bytes(h@), h);
    }

    /// The 32 bytes of `bytes`, as a hash.
    pub fn from_slice(bytes: &[u8]) -> (r: H256)
        requires
            bytes.len() == 32,
        ensures
            r@ == bytes@,
    {
        let mut h: [u8; 32] = [0u8; 32];
        let mut i: usize = 0;
        while i < 32
            invariant
                i <= 32,
                bytes.len() == 32,
                forall|j: int| 0 <= j < i ==> h[j] == bytes[j],
            decreases 32 - i,
        {
            h[i] = bytes[i];
            i = i + 1;
        }
        proof {
            assert(h@ =~= bytes@);
        }
        H256(h)
    }

    /// A text stands for no hash, for the reason given.
    pub open spec fn refuses(text: Seq<char>, e: HexError) -> bool {
        match e {
            HexError::InvalidHexCharacter(c, i) => {
                &&& hex::first_bad_at(text, i as int)
                &&& c == text[i as int]
            },
            HexError::InvalidHexLength => {
                &&& hex::is_hex_text(text)
                &&& hex::decoded(text) matches Some(bytes) ==> bytes.len() != 32
            },
        }
    }

    /// The hash that a hexadecimal text stands for. A text of another length than 32 bytes has an
    /// invalid length.
    pub fn from_hex_str(text: &str) -> (r: Result<H256, HexError>)
        ensures
            match r {
                Ok(h) => hex::decoded(text@) == Some(h@),
                Err(e) => H256::refuses(text@, e),
            },
            r is Ok <==> (hex::decoded(text@) matches Some(bytes) && bytes.len() == 32),
    {
        match hex::from_hex(text) {
            Ok(bytes) => if bytes.len() == 32 {
                Ok(H256::from_slice(bytes.as_slice()))
            } else {
                Err(HexError::InvalidHexLength)
            },
            Err(e) => {
                proof {
                    if let HexError::InvalidHexCharacter(c, i) = e {
                        assert(hex::hex_value(text@[i as int]) is None);
                    }
                }
                Err(e)
            },
        }
    }

    /// The hash as 64 hexadecimal digits.
    pub fn to_hex(&self) -> (r: String)
        ensures
            r@ == hex::hex_of(self@),
    {
        hex::to_hex(self.as_bytes())
    }

    /// The 32 bytes of the hash.
    pub fn as_bytes(&self) -> (r: &[u8])
        ensures
            r@ == self@,
    {
        self.0.as_slice()
    }
}

} // verus!
