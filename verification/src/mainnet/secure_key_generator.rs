//! Random 32-byte encryption keys and their hexadecimal form.
use vstd::prelude::*;
use vstd::string::StringSliceAdditionalSpecFns;
use crate::hex_codec::{HexError, hex_text, decode_hex, ascii_bytes, ascii_lower, lemma_hex_roundtrip, lemma_hex_text_of_decoded, hex_encode, hex_decode};
use crate::random::random_key_bytes;

verus! {

/// The length of a key in bytes.
pub const KEY_LENGTH: usize = 32;

/// A key of `KEY_LENGTH` bytes.
#[derive(Debug, Clone, PartialEq, Eq)]
pub struct EncryptionKey {
    bytes: [u8; KEY_LENGTH],
}

/// The key that hexadecimal text whose bytes are `b` gives, or why there is none:
/// the text must spell exactly `KEY_LENGTH` bytes.
pub open spec fn key_from_hex(b: Seq<u8>) -> Result<Seq<u8>, HexError> {
    match decode_hex(b) {
        Err(e) => Err(e),
        Ok(v) => if v.len() == KEY_LENGTH {
            Ok(v)
        } else {
            Err(HexError::InvalidStringLength)
        },
    }
}

impl EncryptionKey {
    /// The key's bytes.
    pub closed spec fn key_bytes(&self) -> Seq<u8> {
        self.bytes@
    }

    /// A key of random bytes.
    pub fn generate() -> (k: EncryptionKey)
        ensures
            k.key_bytes().len() == KEY_LENGTH,
    {
        EncryptionKey { bytes: random_key_bytes() }
    }

    /// The key's bytes.
    pub fn as_bytes(&self) -> (b: &[u8; KEY_LENGTH])
        ensures
            b@ == self.key_bytes(),
    {
        &self.bytes
    }

    /// The key as lowercase hexadecimal text.
    pub fn to_hex(&self) -> (s: String)
        ensures
            s@ == hex_text(self.key_bytes()),
    {
        hex_encode(self.bytes.as_slice())
    }

    /// The key whose hexadecimal text is `hex_str`.
    pub fn from_hex(hex_str: &str) -> (r: Result<EncryptionKey, HexError>)
        ensures
            match r {
                Ok(k) => key_from_hex(hex_str.spec_bytes()) == Ok::<Seq<u8>, HexError>(k.key_bytes()),
                Err(e) => key_from_hex(hex_str.spec_bytes()) == Err::<Seq<u8>, HexError>(e),
            },
    {
        let bytes = match hex_decode(hex_str) {
            Err(e) => return Err(e),
            Ok(v) => v,
        };
        if bytes.len() != KEY_LENGTH {
            return Err(HexError::InvalidStringLength);
        }
        let mut array = [0u8; KEY_LENGTH];
        let mut i: usize = 0;
        while i < KEY_LENGTH
            invariant
                i <= KEY_LENGTH,
                bytes@.len() == KEY_LENGTH,
                forall|j: int| 0 <= j < i ==> array@[j] == bytes@[j],
            decreases KEY_LENGTH - i,
        {
            array[i] = bytes[i];
            i += 1;
        }
        assert(array@ =~= bytes@);
        Ok(EncryptionKey { bytes: array })
    }

    /// The key's bytes, as a slice.
    pub fn as_ref(&self) -> (b: &[u8])
        ensures
            b@ == self.key_bytes(),
    {
        self.bytes.as_slice()
    }
}

/// Reading back the hexadecimal text of a key, as `to_hex` writes it, gives the
/// same key.
pub proof fn lemma_key_hex_roundtrip(k: EncryptionKey, text: &str)
    requires
        text@ == hex_text(k.key_bytes()),
    ensures
        key_from_hex(text.spec_bytes()) == Ok::<Seq<u8>, HexError>(k.key_bytes()),
{
    broadcast use vstd::string::is_ascii_spec_bytes;

    assert(vstd::string::is_ascii(text));
    assert(text.spec_bytes() =~= ascii_bytes(text@));
    lemma_hex_roundtrip(k.key_bytes());
}

/// The key read from hexadecimal text `text` is 32 bytes, and its hexadecimal
/// text is `text` in lowercase: `to_hex` of `from_hex(text)` gives the bytes of
/// `text` with capital digits made small.
pub proof fn law_key_hex_lowercase(text: &str, k: EncryptionKey)
    requires
        key_from_hex(text.spec_bytes()) == Ok::<Seq<u8>, HexError>(k.key_bytes()),
    ensures
        k.key_bytes().len() == KEY_LENGTH,
        ascii_bytes(hex_text(k.key_bytes())) == ascii_lower(text.spec_bytes()),
        key_from_hex(ascii_bytes(hex_text(k.key_bytes()))) == Ok::<Seq<u8>, HexError>(k.key_bytes()),
{
    lemma_hex_text_of_decoded(text.spec_bytes());
    lemma_hex_roundtrip(k.key_bytes());
}

} // verus!
