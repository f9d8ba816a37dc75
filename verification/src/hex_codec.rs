//! Lowercase hexadecimal text of bytes, and bytes of hexadecimal text, as the
//! `hex` crate writes and reads them.
use vstd::prelude::*;
use vstd::string::StringSliceAdditionalSpecFns;

verus! {

/// The lowercase hexadecimal digit of `n`, for `0 <= n < 16`.
pub open spec fn hex_digit(n: int) -> char {
    if n < 10 {
        (n + 48) as char
    } else {
        (n + 87) as char
    }
}

/// The lowercase hexadecimal text of `b`: two digits per byte, high digit first.
pub open spec fn hex_text(b: Seq<u8>) -> Seq<char> {
    Seq::new(
        2 * b.len(),
        |i: int|
            if i % 2 == 0 {
                hex_digit((b[i / 2] / 16) as int)
            } else {
                hex_digit((b[i / 2] % 16) as int)
            },
    )
}

/// The value of the hexadecimal digit byte `c`, in either case.
pub open spec fn hex_value(c: u8) -> Option<int> {
    if 48 <= c <= 57 {
        Some(c - 48)
    } else if 65 <= c <= 70 {
        Some(c - 55)
    } else if 97 <= c <= 102 {
        Some(c - 87)
    } else {
        None
    }
}

/// Why text is not the hexadecimal form of bytes.
#[derive(PartialEq, Eq, Structural, Debug, Clone, Copy)]
pub enum HexError {
    /// The byte at `index` is not a hexadecimal digit; `c` is that byte as a character.
    InvalidHexCharacter { c: char, index: usize },
    /// The text has an odd number of digits.
    OddLength,
    /// The text has the wrong number of digits for what is read.
    InvalidStringLength,
}

/// The position of the first byte of `b` that is not a hexadecimal digit.
pub open spec fn first_non_hex(b: Seq<u8>) -> int {
    choose|i: int|
        0 <= i < b.len() && hex_value(b[i]) is None && forall|j: int|
            0 <= j < i ==> hex_value(b[j]) is Some
}

/// The bytes whose hexadecimal text is the bytes `b`, or why there are none.
pub open spec fn decode_hex(b: Seq<u8>) -> Result<Seq<u8>, HexError> {
    if b.len() % 2 != 0 {
        Err(HexError::OddLength)
    } else if exists|i: int| 0 <= i < b.len() && hex_value(b[i]) is None {
        let i = first_non_hex(b);
        Err(HexError::InvalidHexCharacter { c: b[i] as char, index: i as usize })
    } else {
        Ok(
            Seq::new(
                b.len() / 2,
                |k: int|
                    (hex_value(b[2 * k])->0 * 16 + hex_value(b[2 * k + 1])->0) as u8,
            ),
        )
    }
}

/// The bytes of ASCII text.
pub open spec fn ascii_bytes(s: Seq<char>) -> Seq<u8> {
    Seq::new(s.len(), |i: int| s[i] as u8)
}

/// Reading the hexadecimal text of bytes gives the bytes back.
pub proof fn lemma_hex_roundtrip(b: Seq<u8>)
    ensures
        decode_hex(ascii_bytes(hex_text(b))) == Ok::<Seq<u8>, HexError>(b),
{
    let t = ascii_bytes(hex_text(b));
    assert forall|i: int| 0 <= i < t.len() implies hex_value(t[i]) == Some(
        if i % 2 == 0 {
            b[i / 2] / 16
        } else {
            b[i / 2] % 16
        } as int,
    ) by {
        let n: int = if i % 2 == 0 {
            b[i / 2] / 16
        } else {
            b[i / 2] % 16
        } as int;
        assert(0 <= n < 16);
        if n < 10 {
            assert(t[i] == (n + 48) as u8);
        } else {
            assert(t[i] == (n + 87) as u8);
        }
    }
    assert(t.len() % 2 == 0);
    assert(!(exists|i: int| 0 <= i < t.len() && hex_value(t[i]) is None));
    let d = decode_hex(t)->Ok_0;
    assert forall|k: int| 0 <= k < b.len() implies d[k] == b[k] by {
        assert(hex_value(t[2 * k]) == Some((b[k] / 16) as int));
        assert(hex_value(t[2 * k + 1]) == Some((b[k] % 16) as int));
    }
    assert(d =~= b);
}

/// The bytes `b` with each ASCII capital letter made small.
pub open spec fn ascii_lower(b: Seq<u8>) -> Seq<u8> {
    Seq::new(
        b.len(),
        |i: int|
            if 65 <= b[i] <= 90 {
                (b[i] + 32) as u8
            } else {
                b[i]
            },
    )
}

/// Writing the bytes that hexadecimal text gives yields that text in lowercase.
pub proof fn lemma_hex_text_of_decoded(h: Seq<u8>)
    requires
        decode_hex(h) is Ok,
    ensures
        ascii_bytes(hex_text(decode_hex(h)->Ok_0)) == ascii_lower(h),
{
    let v = decode_hex(h)->Ok_0;
    let t = ascii_bytes(hex_text(v));
    assert(h.len() % 2 == 0);
    assert forall|i: int| 0 <= i < h.len() implies #[trigger] hex_value(h[i]) is Some by {
        if hex_value(h[i]) is None {
            assert(exists|j: int| 0 <= j < h.len() && hex_value(h[j]) is None);
        }
    }
    assert forall|i: int| 0 <= i < t.len() implies t[i] == #[trigger] ascii_lower(h)[i] by {
        let k = i / 2;
        assert(0 <= k < v.len());
        let hi = hex_value(h[2 * k])->0;
        let lo = hex_value(h[2 * k + 1])->0;
        assert(hex_value(h[2 * k]) is Some);
        assert(hex_value(h[2 * k + 1]) is Some);
        assert(0 <= hi < 16 && 0 <= lo < 16);
        assert(v[k] == (hi * 16 + lo) as u8);
        assert((hi * 16 + lo) / 16 == hi && (hi * 16 + lo) % 16 == lo) by (nonlinear_arith)
            requires
                0 <= hi < 16,
                0 <= lo < 16,
        ;
        let c = h[i];
        let n = hex_value(c)->0;
        assert(hex_value(c) is Some);
        if i % 2 == 0 {
            assert(i == 2 * k);
            assert(n == hi);
        } else {
            assert(i == 2 * k + 1);
            assert(n == lo);
        }
        assert(hex_text(v)[i] == hex_digit(n));
        if n < 10 {
            assert(t[i] == (n + 48) as u8);
        } else {
            assert(t[i] == (n + 87) as u8);
        }
    }
    assert(t =~= ascii_lower(h));
}

/// `hex::encode`: the lowercase hexadecimal text of `bytes`, two digits per byte,
/// high digit first, as the crate's table of digits `0123456789abcdef` gives it.
#[verifier::external_body]
pub(crate) fn hex_encode(bytes: &[u8]) -> (s: String)
    ensures
        s@ == hex_text(bytes@),
{
    hex::encode(bytes)
}

/// `hex::decode`: the bytes that the UTF-8 bytes of `s` spell in hexadecimal (digits
/// in either case), or the crate's error: an odd length first, else the first byte
/// that is not a digit, with its position.
#[verifier::external_body]
pub(crate) fn hex_decode(s: &str) -> (r: Result<Vec<u8>, HexError>)
    ensures
        match r {
            Ok(v) => decode_hex(s.spec_bytes()) == Ok::<Seq<u8>, HexError>(v@),
            Err(e) => decode_hex(s.spec_bytes()) == Err::<Seq<u8>, HexError>(e),
        },
{
    match hex::decode(s) {
        Ok(v) => Ok(v),
        Err(hex::FromHexError::InvalidHexCharacter { c, index }) => Err(
            HexError::InvalidHexCharacter { c, index },
        ),
        Err(hex::FromHexError::OddLength) => Err(HexError::OddLength),
        Err(hex::FromHexError::InvalidStringLength) => Err(HexError::InvalidStringLength),
    }
}

} // verus!
