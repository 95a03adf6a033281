//! Lowercase hexadecimal encoding and decoding of byte strings, used for
//! the sidecar files that record an archive's SHA-256 digest.
use vstd::prelude::*;

verus! {

/// Number of hex characters in a SHA-256 digest line.
pub const DIGEST_HEX_LEN: usize = 64;

/// Number of bytes in a SHA-256 digest.
pub const DIGEST_LEN: usize = 32;

pub open spec fn is_hex_digit(b: u8) -> bool {
    (48 <= b && b <= 57) || (97 <= b && b <= 102) || (65 <= b && b <= 70)
}

/// Value of one hex digit; meaningful only when `is_hex_digit(b)`.
pub open spec fn hex_val(b: u8) -> u8 {
    if 48 <= b && b <= 57 {
        (b - 48) as u8
    } else if 97 <= b && b <= 102 {
        ((b - 97) + 10) as u8
    } else {
        ((b - 65) + 10) as u8
    }
}

/// Lowercase hex digit for a value below 16.
pub open spec fn hex_char(n: u8) -> u8 {
    if n < 10 {
        (48 + n) as u8
    } else {
        ((97 + n) - 10) as u8
    }
}

/// The lowercase hex rendering of `data`, two digits per byte.
pub open spec fn hex_encode(data: Seq<u8>) -> Seq<u8> {
    Seq::new(data.len() * 2, |i: int| if i % 2 == 0 {
        hex_char(data[i / 2] / 16)
    } else {
        hex_char(data[i / 2] % 16)
    })
}

/// The bytes denoted by a hex string of even length, upper or lower case.
pub open spec fn hex_decode(s: Seq<u8>) -> Seq<u8> {
    Seq::new(s.len() / 2, |i: int| (hex_val(s[2 * i]) * 16 + hex_val(s[2 * i + 1])) as u8)
}

/// Renders bytes as lowercase hex, two digits per byte.
pub fn to_hex(data: &[u8]) -> (r: Vec<u8>)
    requires
        data@.len() * 2 <= usize::MAX,
    ensures
        r@ == hex_encode(data@),
{
    let mut r: Vec<u8> = Vec::new();
    let mut i: usize = 0;
    while i < data.len()
        invariant
            data@.len() * 2 <= usize::MAX,
            i <= data@.len(),
            r@.len() == 2 * i,
            forall|j: int| 0 <= j < 2 * i ==> r@[j] == hex_encode(data@)[j],
        decreases data@.len() - i,
    {
        let b = data[i];
        let hi = b / 16;
        let lo = b % 16;
        let hi_c = if hi < 10 { 48 + hi } else { 97 + hi - 10 };
        let lo_c = if lo < 10 { 48 + lo } else { 97 + lo - 10 };
        r.push(hi_c);
        r.push(lo_c);
        assert(r@[2 * i as int] == hex_encode(data@)[2 * i as int]);
        assert(r@[2 * i as int + 1] == hex_encode(data@)[2 * i as int + 1]);
        i = i + 1;
    }
    assert(r@ =~= hex_encode(data@));
    r
}

/// Parses a 64-character hex digest into its 32 bytes. Returns `None`
/// unless the input is exactly 64 hex digits (either case accepted).
pub fn parse_hex(hex: &[u8]) -> (r: Option<Vec<u8>>)
    ensures
        r is Some <==> hex@.len() == DIGEST_HEX_LEN && (forall|i: int|
            0 <= i < hex@.len() ==> is_hex_digit(hex@[i])),
        r matches Some(d) ==> d@ == hex_decode(hex@),
{
    if hex.len() != DIGEST_HEX_LEN {
        return None;
    }
    let mut out: Vec<u8> = Vec::new();
    let mut i: usize = 0;
    while i < DIGEST_LEN
        invariant
            hex@.len() == DIGEST_HEX_LEN,
            i <= DIGEST_LEN,
            out@.len() == i,
            forall|j: int| 0 <= j < 2 * i ==> is_hex_digit(hex@[j]),
            forall|j: int| 0 <= j < i ==> out@[j] == hex_decode(hex@)[j],
        decreases DIGEST_LEN - i,
    {
        let hi = match hex_digit_value(hex[2 * i]) {
            Some(v) => v,
            None => {
                return None;
            },
        };
        let lo = match hex_digit_value(hex[2 * i + 1]) {
            Some(v) => v,
            None => {
                return None;
            },
        };
        out.push(hi * 16 + lo);
        assert(out@[i as int] == hex_decode(hex@)[i as int]);
        i = i + 1;
    }
    assert(forall|j: int| 0 <= j < hex@.len() ==> is_hex_digit(hex@[j]));
    assert(out@ =~= hex_decode(hex@));
    Some(out)
}

/// Value of one hex digit, or `None` for any other byte.
fn hex_digit_value(b: u8) -> (r: Option<u8>)
    ensures
        r is Some <==> is_hex_digit(b),
        r matches Some(v) ==> v == hex_val(b) && v < 16,
{
    if 48 <= b && b <= 57 {
        Some(b - 48)
    } else if 97 <= b && b <= 102 {
        Some(b - 97 + 10)
    } else if 65 <= b && b <= 70 {
        Some(b - 65 + 10)
    } else {
        None
    }
}

/// Encoding then decoding gives the bytes back: the sidecar a download
/// writes is accepted by the cache check that rereads it.
pub proof fn lemma_hex_round_trip(data: Seq<u8>)
    ensures
        hex_encode(data).len() == data.len() * 2,
        forall|i: int| 0 <= i < data.len() * 2 ==> is_hex_digit(#[trigger] hex_encode(data)[i]),
        hex_decode(hex_encode(data)) =~= data,
{
    let enc = hex_encode(data);
    assert forall|i: int| 0 <= i < data.len() * 2 implies is_hex_digit(#[trigger] enc[i]) by {
        let b = data[i / 2];
        assert(b / 16 < 16 && b % 16 < 16);
    }
    assert forall|i: int| 0 <= i < data.len() implies hex_decode(enc)[i] == data[i] by {
        let b = data[i];
        assert(enc[2 * i] == hex_char(b / 16));
        assert(enc[2 * i + 1] == hex_char(b % 16));
        assert(b / 16 < 16 && b % 16 < 16);
        assert(hex_val(hex_char(b / 16)) == b / 16);
        assert(hex_val(hex_char(b % 16)) == b % 16);
        assert(b / 16 * 16 + b % 16 == b) by (nonlinear_arith);
    }
}

} // verus!
