//! Sync endpoints: 32-byte addresses, written down as hexadecimal text.

use crate::hash::Hash32;
use crate::hexcodec::{decode_prefixed, hex_encode, hex_of, is_hex, strip_0x, unhex};
use vstd::prelude::*;
use vstd::string::{StringExecFns, StringSliceAdditionalSpecFns};

verus! {

/// Why a text is no sync endpoint.
#[derive(Debug)]
pub enum SyncEndpointError {
    /// The text, which is held, does not stand for 32 bytes.
    DeserializeLength(String),
    /// The text is not hexadecimal.
    NotHex,
}

/// The address of a sync endpoint.
#[derive(Debug)]
pub struct SyncEndpoint(pub [u8; 32]);

impl vstd::std_specs::convert::FromSpecImpl<Hash32> for SyncEndpoint {
    open spec fn obeys_from_spec() -> bool {
        true
    }

    open spec fn from_spec(value: Hash32) -> SyncEndpoint {
        SyncEndpoint(choose|bytes: [u8; 32]| bytes@ == value.spec_to_bytes())
    }
}

impl From<Hash32> for SyncEndpoint {
    /// The endpoint whose bytes are those of the lanes of `value`.
    fn from(value: Hash32) -> (endpoint: SyncEndpoint)
        ensures
            endpoint.0@ == value.spec_to_bytes(),
    {
        let bytes = value.to_bytes();
        proof {
            let chosen = choose|bytes: [u8; 32]| bytes@ == value.spec_to_bytes();
            assert(chosen@ == bytes@);
            assert(chosen =~= bytes);
        }
        SyncEndpoint(bytes)
    }
}

impl vstd::std_specs::convert::FromSpecImpl<SyncEndpoint> for Hash32 {
    open spec fn obeys_from_spec() -> bool {
        true
    }

    open spec fn from_spec(value: SyncEndpoint) -> Hash32 {
        Hash32::spec_from_bytes(value.0@)
    }
}

impl From<SyncEndpoint> for Hash32 {
    /// The lanes that hold the bytes of `value`.
    fn from(value: SyncEndpoint) -> (hash: Hash32) {
        Hash32::from_bytes(&value.0)
    }
}

impl SyncEndpoint {
    /// The endpoint as text: `0x` and the 64 hexadecimal digits of its
    /// bytes.
    pub fn to_string(&self) -> (text: String)
        ensures
            text@ == "0x"@ + hex_of(self.0@),
    {
        let digits = hex_encode(self.0.as_slice());
        String::from_str("0x").concat(digits.as_str())
    }

    /// The endpoint that `text` stands for: the 32 bytes of its
    /// hexadecimal digits, with or without `0x` before them.
    pub fn from_text(text: &str) -> (result: Result<SyncEndpoint, SyncEndpointError>)
        ensures
            match result {
                Ok(endpoint) => {
                    &&& is_hex(strip_0x(text.spec_bytes()))
                    &&& endpoint.0@ == unhex(strip_0x(text.spec_bytes()))
                },
                Err(SyncEndpointError::NotHex) => !is_hex(strip_0x(text.spec_bytes())),
                Err(SyncEndpointError::DeserializeLength(held)) => {
                    &&& is_hex(strip_0x(text.spec_bytes()))
                    &&& unhex(strip_0x(text.spec_bytes())).len() != 32
                    &&& held@ == text@
                },
            },
    {
        let decoded = match decode_prefixed(text) {
            Some(decoded) => decoded,
            None => {
                return Err(SyncEndpointError::NotHex);
            },
        };
        if decoded.len() != 32 {
            return Err(SyncEndpointError::DeserializeLength(text.to_owned()));
        }
        let mut bytes = [0u8; 32];
        let mut i: usize = 0;
        while i < 32
            invariant
                i <= 32,
                decoded@.len() == 32,
                forall|k: int| 0 <= k < i ==> bytes@[k] == decoded@[k],
            decreases 32 - i,
        {
            bytes[i] = decoded[i];
            i += 1;
        }
        assert(bytes@ =~= decoded@);
        Ok(SyncEndpoint(bytes))
    }
}

} // verus!
