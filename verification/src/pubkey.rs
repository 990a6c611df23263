//! Public keys of name-service accounts.

use crate::hexcodec::{decode_prefixed, hex_encode, hex_of, is_hex, strip_0x, unhex};
use vstd::prelude::*;
use vstd::string::{StringExecFns, StringSliceAdditionalSpecFns};

verus! {

/// Why a text is no public key.
#[derive(Debug)]
pub enum PublicKeyError {
    /// The text (second) does not stand for as many bytes as the key has
    /// (first).
    DeserializeLength(usize, String),
    /// The text is not hexadecimal.
    NotHex,
}

/// The bytes of a public key of exactly `LEN` bytes.
#[derive(Debug, Clone, Hash, PartialEq, Eq)]
pub struct PublicKeyBuff<const LEN: usize>(pub [u8; LEN]);

/// A public key, tagged with its scheme.
#[derive(Debug, Clone, Hash, PartialEq, Eq)]
pub enum PublicKey {
    /// RSA with a 1024-bit modulus.
    RSA1024(PublicKeyBuff<128>),
    /// RSA with a 2048-bit modulus.
    RSA2048(PublicKeyBuff<256>),
    /// RSA with a 4096-bit modulus.
    RSA4096(PublicKeyBuff<512>),
    /// Ed25519.
    Ed25519(PublicKeyBuff<32>),
    /// ECDSA over secp256k1, compressed.
    ECDSA(PublicKeyBuff<33>),
}

impl<const LEN: usize> Default for PublicKeyBuff<LEN> {
    fn default() -> (buff: Self)
        ensures
            buff.0@ == Seq::new(LEN as nat, |i: int| 0u8),
    {
        let buff = PublicKeyBuff([0u8; LEN]);
        assert(buff.0@ =~= Seq::new(LEN as nat, |i: int| 0u8));
        buff
    }
}

impl<const LEN: usize> PublicKeyBuff<LEN> {
    /// The key that holds `bytes`; `None` unless there are `LEN` of them.
    pub fn from_vec(bytes: &Vec<u8>) -> (buff: Option<Self>)
        ensures
            buff is Some <==> bytes@.len() == LEN,
            buff matches Some(key) ==> key.0@ == bytes@,
    {
        if bytes.len() != LEN {
            return None;
        }
        let mut held = [0u8; LEN];
        let mut i: usize = 0;
        while i < LEN
            invariant
                i <= LEN,
                bytes@.len() == LEN,
                held@.len() == LEN,
                forall|k: int| 0 <= k < i ==> held@[k] == bytes@[k],
            decreases LEN - i,
        {
            held[i] = bytes[i];
            i += 1;
        }
        assert(held@ =~= bytes@);
        Some(PublicKeyBuff(held))
    }

    /// The key as text: `0x` and the hexadecimal digits of its bytes.
    pub fn to_string(&self) -> (text: String)
        ensures
            text@ == "0x"@ + hex_of(self.0@),
    {
        let digits = hex_encode(self.0.as_slice());
        String::from_str("0x").concat(digits.as_str())
    }

    /// The key that `text` stands for: the `LEN` bytes of its hexadecimal
    /// digits, with or without `0x` before them.
    pub fn from_text(text: &str) -> (result: Result<Self, PublicKeyError>)
        ensures
            match result {
                Ok(key) => {
                    &&& is_hex(strip_0x(text.spec_bytes()))
                    &&& key.0@ == unhex(strip_0x(text.spec_bytes()))
                },
                Err(PublicKeyError::NotHex) => !is_hex(strip_0x(text.spec_bytes())),
                Err(PublicKeyError::DeserializeLength(expected, held)) => {
                    &&& is_hex(strip_0x(text.spec_bytes()))
                    &&& unhex(strip_0x(text.spec_bytes())).len() != LEN
                    &&& expected == LEN
                    &&& held@ == text@
                },
            },
    {
        let decoded = match decode_prefixed(text) {
            Some(decoded) => decoded,
            None => {
                return Err(PublicKeyError::NotHex);
            },
        };
        match Self::from_vec(&decoded) {
            Some(key) => Ok(key),
            None => Err(PublicKeyError::DeserializeLength(LEN, text.to_owned())),
        }
    }
}

impl PublicKey {
    /// The name of the key's scheme.
    pub open spec fn spec_scheme(self) -> Seq<char> {
        match self {
            PublicKey::RSA1024(_) => "RSA1024: "@,
            PublicKey::RSA2048(_) => "RSA2048: "@,
            PublicKey::RSA4096(_) => "RSA4096: "@,
            PublicKey::Ed25519(_) => "Ed25519: "@,
            PublicKey::ECDSA(_) => "ECDSA: "@,
        }
    }

    /// The bytes of the key.
    pub open spec fn spec_bytes(self) -> Seq<u8> {
        match self {
            PublicKey::RSA1024(buff) => buff.0@,
            PublicKey::RSA2048(buff) => buff.0@,
            PublicKey::RSA4096(buff) => buff.0@,
            PublicKey::Ed25519(buff) => buff.0@,
            PublicKey::ECDSA(buff) => buff.0@,
        }
    }

    /// The key as text: the name of its scheme, a colon and a blank, and
    /// the key's bytes as `0x` and hexadecimal digits.
    pub fn to_string(&self) -> (text: String)
        ensures
            text@ == self.spec_scheme() + "0x"@ + hex_of(self.spec_bytes()),
    {
        let (scheme, key) = match self {
            PublicKey::RSA1024(buff) => ("RSA1024: ", buff.to_string()),
            PublicKey::RSA2048(buff) => ("RSA2048: ", buff.to_string()),
            PublicKey::RSA4096(buff) => ("RSA4096: ", buff.to_string()),
            PublicKey::Ed25519(buff) => ("Ed25519: ", buff.to_string()),
            PublicKey::ECDSA(buff) => ("ECDSA: ", buff.to_string()),
        };
        let text = String::from_str(scheme).concat(key.as_str());
        assert(text@ =~= self.spec_scheme() + "0x"@ + hex_of(self.spec_bytes()));
        text
    }
}

impl Default for PublicKey {
    fn default() -> (key: Self)
        ensures
            key matches PublicKey::ECDSA(buff) && buff.0@ == Seq::new(33, |i: int| 0u8),
    {
        PublicKey::ECDSA(PublicKeyBuff::default())
    }
}

} // verus!
