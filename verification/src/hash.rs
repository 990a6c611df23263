//! Keccak-256 digests and the 32-byte hash value of the wire schema.

use sha3::Digest;
use vstd::prelude::*;

verus! {

/// The 32 bytes that Keccak-256 assigns to `data`.
pub uninterp spec fn keccak256_digest(data: Seq<u8>) -> Seq<u8>;

/// Keccak-256 of `data`.
///
/// Trusted: the body feeds `data` to `sha3::Keccak256` and returns the
/// finalized output. The contract only gives that output its name,
/// [`keccak256_digest`]; which bytes it holds is left to the `sha3` crate.
#[verifier::external_body]
pub fn keccack256(data: &[u8]) -> (digest: [u8; 32])
    ensures
        digest@ == keccak256_digest(data@),
{
    sha3::Keccak256::new().chain_update(data).finalize().into()
}

/// A 32-byte value carried as four big-endian 64-bit lanes: `h1` covers
/// bytes 0..8, `h2` bytes 8..16, `h3` bytes 16..24 and `h4` bytes 24..32.
#[derive(Clone, Copy, Debug, PartialEq, Eq, Structural)]
pub struct Hash32 {
    pub h1: u64,
    pub h2: u64,
    pub h3: u64,
    pub h4: u64,
}

/// The big-endian value of the eight bytes of `bytes` that start at `at`.
pub open spec fn be_lane(bytes: Seq<u8>, at: int) -> u64 {
    (bytes[at] as u64) << 56 | (bytes[at + 1] as u64) << 48 | (bytes[at + 2] as u64) << 40 | (
    bytes[at + 3] as u64) << 32 | (bytes[at + 4] as u64) << 24 | (bytes[at + 5] as u64) << 16 | (
    bytes[at + 6] as u64) << 8 | (bytes[at + 7] as u64)
}

/// Byte `k` (0 is the most significant) of the big-endian form of `lane`.
pub open spec fn lane_byte(lane: u64, k: int) -> u8 {
    if k == 0 {
        (lane >> 56) as u8
    } else if k == 1 {
        ((lane >> 48) & 0xff) as u8
    } else if k == 2 {
        ((lane >> 40) & 0xff) as u8
    } else if k == 3 {
        ((lane >> 32) & 0xff) as u8
    } else if k == 4 {
        ((lane >> 24) & 0xff) as u8
    } else if k == 5 {
        ((lane >> 16) & 0xff) as u8
    } else if k == 6 {
        ((lane >> 8) & 0xff) as u8
    } else {
        (lane & 0xff) as u8
    }
}

/// The digest that a fragment with the bytes `content` must declare.
pub open spec fn fragment_digest(content: Seq<u8>) -> Hash32 {
    Hash32::spec_from_bytes(keccak256_digest(content))
}

impl Hash32 {
    /// The lanes that hold the 32 bytes `bytes`.
    pub open spec fn spec_from_bytes(bytes: Seq<u8>) -> Hash32 {
        Hash32 {
            h1: be_lane(bytes, 0),
            h2: be_lane(bytes, 8),
            h3: be_lane(bytes, 16),
            h4: be_lane(bytes, 24),
        }
    }

    /// The 32 bytes that the lanes hold.
    pub open spec fn spec_to_bytes(self) -> Seq<u8> {
        Seq::new(
            32,
            |i: int|
                if i < 8 {
                    lane_byte(self.h1, i)
                } else if i < 16 {
                    lane_byte(self.h2, i - 8)
                } else if i < 24 {
                    lane_byte(self.h3, i - 16)
                } else {
                    lane_byte(self.h4, i - 24)
                },
        )
    }

    /// Packs 32 bytes into four big-endian lanes.
    pub fn from_bytes(bytes: &[u8; 32]) -> (hash: Hash32)
        ensures
            hash == Hash32::spec_from_bytes(bytes@),
    {
        Hash32 {
            h1: pack_lane(bytes, 0),
            h2: pack_lane(bytes, 8),
            h3: pack_lane(bytes, 16),
            h4: pack_lane(bytes, 24),
        }
    }

    /// Unpacks the four lanes into their 32 bytes.
    pub fn to_bytes(&self) -> (bytes: [u8; 32])
        ensures
            bytes@ == self.spec_to_bytes(),
    {
        let mut bytes: [u8; 32] = [0u8; 32];
        unpack_lane(self.h1, &mut bytes, 0);
        unpack_lane(self.h2, &mut bytes, 8);
        unpack_lane(self.h3, &mut bytes, 16);
        unpack_lane(self.h4, &mut bytes, 24);
        assert(bytes@ =~= self.spec_to_bytes());
        bytes
    }
}

fn pack_lane(bytes: &[u8; 32], at: usize) -> (lane: u64)
    requires
        at + 8 <= 32,
    ensures
        lane == be_lane(bytes@, at as int),
{
    (bytes[at] as u64) << 56 | (bytes[at + 1] as u64) << 48 | (bytes[at + 2] as u64) << 40 | (
    bytes[at + 3] as u64) << 32 | (bytes[at + 4] as u64) << 24 | (bytes[at + 5] as u64) << 16 | (
    bytes[at + 6] as u64) << 8 | (bytes[at + 7] as u64)
}

fn unpack_lane(lane: u64, bytes: &mut [u8; 32], at: usize)
    requires
        at + 8 <= 32,
    ensures
        forall|i: int| 0 <= i < 32 && !(at <= i < at + 8) ==> final(bytes)@[i] == old(bytes)@[i],
        forall|k: int| 0 <= k < 8 ==> final(bytes)@[at + k] == lane_byte(lane, k),
{
    bytes[at] = (lane >> 56) as u8;
    bytes[at + 1] = ((lane >> 48) & 0xff) as u8;
    bytes[at + 2] = ((lane >> 40) & 0xff) as u8;
    bytes[at + 3] = ((lane >> 32) & 0xff) as u8;
    bytes[at + 4] = ((lane >> 24) & 0xff) as u8;
    bytes[at + 5] = ((lane >> 16) & 0xff) as u8;
    bytes[at + 6] = ((lane >> 8) & 0xff) as u8;
    bytes[at + 7] = (lane & 0xff) as u8;
}

proof fn lemma_pack_unpack(lane: u64)
    ensures
        (lane_byte(lane, 0) as u64) << 56 | (lane_byte(lane, 1) as u64) << 48 | (lane_byte(
            lane,
            2,
        ) as u64) << 40 | (lane_byte(lane, 3) as u64) << 32 | (lane_byte(lane, 4) as u64) << 24 | (
        lane_byte(lane, 5) as u64) << 16 | (lane_byte(lane, 6) as u64) << 8 | (lane_byte(
            lane,
            7,
        ) as u64) == lane,
{
    assert((((lane >> 56) as u8) as u64) << 56 | ((((lane >> 48) & 0xff) as u8) as u64) << 48 | ((((
    lane >> 40) & 0xff) as u8) as u64) << 40 | ((((lane >> 32) & 0xff) as u8) as u64) << 32 | ((((
    lane >> 24) & 0xff) as u8) as u64) << 24 | ((((lane >> 16) & 0xff) as u8) as u64) << 16 | ((((
    lane >> 8) & 0xff) as u8) as u64) << 8 | (((lane & 0xff) as u8) as u64) == lane)
        by (bit_vector);
}

proof fn lemma_unpack_pack(b0: u8, b1: u8, b2: u8, b3: u8, b4: u8, b5: u8, b6: u8, b7: u8)
    ensures
        ({
            let lane = (b0 as u64) << 56 | (b1 as u64) << 48 | (b2 as u64) << 40 | (b3 as u64) << 32
                | (b4 as u64) << 24 | (b5 as u64) << 16 | (b6 as u64) << 8 | (b7 as u64);
            &&& lane_byte(lane, 0) == b0
            &&& lane_byte(lane, 1) == b1
            &&& lane_byte(lane, 2) == b2
            &&& lane_byte(lane, 3) == b3
            &&& lane_byte(lane, 4) == b4
            &&& lane_byte(lane, 5) == b5
            &&& lane_byte(lane, 6) == b6
            &&& lane_byte(lane, 7) == b7
        }),
{
    let lane = (b0 as u64) << 56 | (b1 as u64) << 48 | (b2 as u64) << 40 | (b3 as u64) << 32 | (
    b4 as u64) << 24 | (b5 as u64) << 16 | (b6 as u64) << 8 | (b7 as u64);
    assert(lane == (b0 as u64) << 56 | (b1 as u64) << 48 | (b2 as u64) << 40 | (b3 as u64) << 32
        | (b4 as u64) << 24 | (b5 as u64) << 16 | (b6 as u64) << 8 | (b7 as u64) ==> (lane >> 56) as u8
        == b0 && ((lane >> 48) & 0xff) as u8 == b1 && ((lane >> 40) & 0xff) as u8 == b2 && ((lane
        >> 32) & 0xff) as u8 == b3 && ((lane >> 24) & 0xff) as u8 == b4 && ((lane >> 16) & 0xff) as u8
        == b5 && ((lane >> 8) & 0xff) as u8 == b6 && (lane & 0xff) as u8 == b7) by (bit_vector);
}

/// Unpacking the lanes of any hash and packing the bytes again gives the
/// same hash.
pub proof fn lemma_hash32_bytes_round_trip(hash: Hash32)
    ensures
        hash.spec_to_bytes().len() == 32,
        Hash32::spec_from_bytes(hash.spec_to_bytes()) == hash,
{
    lemma_pack_unpack(hash.h1);
    lemma_pack_unpack(hash.h2);
    lemma_pack_unpack(hash.h3);
    lemma_pack_unpack(hash.h4);
}

/// Packing any 32 bytes into lanes and unpacking them again gives the same
/// 32 bytes.
pub proof fn lemma_bytes_hash32_round_trip(bytes: Seq<u8>)
    requires
        bytes.len() == 32,
    ensures
        Hash32::spec_from_bytes(bytes).spec_to_bytes() == bytes,
{
    lemma_unpack_pack(
        bytes[0],
        bytes[1],
        bytes[2],
        bytes[3],
        bytes[4],
        bytes[5],
        bytes[6],
        bytes[7],
    );
    lemma_unpack_pack(
        bytes[8],
        bytes[9],
        bytes[10],
        bytes[11],
        bytes[12],
        bytes[13],
        bytes[14],
        bytes[15],
    );
    lemma_unpack_pack(
        bytes[16],
        bytes[17],
        bytes[18],
        bytes[19],
        bytes[20],
        bytes[21],
        bytes[22],
        bytes[23],
    );
    lemma_unpack_pack(
        bytes[24],
        bytes[25],
        bytes[26],
        bytes[27],
        bytes[28],
        bytes[29],
        bytes[30],
        bytes[31],
    );
    assert(Hash32::spec_from_bytes(bytes).spec_to_bytes() =~= bytes);
}

} // verus!
