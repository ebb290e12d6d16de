//! Hexadecimal framing: the printer protocol is built over strings of ASCII
//! hex digits, two digits per byte, which are decoded to raw bytes just
//! before each wireless write.

use vstd::prelude::*;

verus! {

/// True for the ASCII digits `0`-`9`, `A`-`F` and `a`-`f`.
pub open spec fn is_hex_digit(c: u8) -> bool {
    (48 <= c && c <= 57) || (65 <= c && c <= 70) || (97 <= c && c <= 102)
}

/// True for the ASCII digits `0`-`9` and `A`-`F`, the alphabet the encoder
/// itself emits.
pub open spec fn is_upper_hex_digit(c: u8) -> bool {
    (48 <= c && c <= 57) || (65 <= c && c <= 70)
}

/// Numeric value of one hex digit.
pub open spec fn hex_value(c: u8) -> int {
    if 48 <= c && c <= 57 {
        c - 48
    } else if 65 <= c && c <= 70 {
        c - 55
    } else {
        c - 87
    }
}

/// Upper-case hex digit for a value below 16.
pub open spec fn hex_digit_of(v: int) -> u8 {
    if v < 10 {
        (48 + v) as u8
    } else {
        (55 + v) as u8
    }
}

/// The bytes denoted by an even-length string of hex digits: each pair of
/// digits is one byte, high digit first.
pub open spec fn decode_spec(s: Seq<u8>) -> Seq<u8> {
    Seq::new((s.len() / 2) as nat, |i: int| (16 * hex_value(s[2 * i]) + hex_value(s[2 * i + 1])) as u8)
}

/// The upper-case hex string denoting a byte sequence, two digits per byte,
/// high digit first.
pub open spec fn encode_spec(b: Seq<u8>) -> Seq<u8> {
    Seq::new((2 * b.len()) as nat, |i: int| if i % 2 == 0 {
        hex_digit_of((b[i / 2] / 16) as int)
    } else {
        hex_digit_of((b[i / 2] % 16) as int)
    })
}

/// Why a hex string was rejected: these only ever signal an internal encoder
/// bug, never a runtime condition of a correct pipeline.
#[derive(PartialEq, Eq, Structural, Clone, Copy, Debug)]
pub enum HexError {
    /// The string's length is not a multiple of two.
    OddLength,
    /// Some character is not a hex digit.
    InvalidDigit,
}

/// Encodes bytes as an upper-case hex string.
pub fn encode_hex(b: &Vec<u8>) -> (r: Vec<u8>)
    ensures
        r@ == encode_spec(b@),
{
    let mut r: Vec<u8> = Vec::new();
    let mut i: usize = 0;
    while i < b.len()
        invariant
            i <= b@.len(),
            r@ =~= encode_spec(b@).subrange(0, 2 * i as int),
        decreases b@.len() - i,
    {
        let hi = b[i] / 16;
        let lo = b[i] % 16;
        r.push(hex_digit_exec(hi));
        r.push(hex_digit_exec(lo));
        i = i + 1;
        proof {
            assert(r@ =~= encode_spec(b@).subrange(0, 2 * i as int));
        }
    }
    proof {
        assert(r@ =~= encode_spec(b@));
    }
    r
}

/// Upper-case hex digit for a value below 16.
pub(crate) fn hex_digit_exec(v: u8) -> (r: u8)
    requires
        v < 16,
    ensures
        r == hex_digit_of(v as int),
{
    if v < 10 {
        48 + v
    } else {
        55 + v
    }
}

/// Numeric value of one hex digit, or `None` for any other byte.
fn hex_value_exec(c: u8) -> (r: Option<u8>)
    ensures
        is_hex_digit(c) <==> r is Some,
        r is Some ==> r->0 == hex_value(c) && r->0 < 16,
{
    if 48 <= c && c <= 57 {
        Some(c - 48)
    } else if 65 <= c && c <= 70 {
        Some(c - 55)
    } else if 97 <= c && c <= 102 {
        Some(c - 87)
    } else {
        None
    }
}

/// Decodes a string of hex digits to bytes.  Succeeds exactly on even-length
/// strings of hex digits; anything else is reported as the malformation it
/// is.
pub fn decode_hex(s: &Vec<u8>) -> (r: Result<Vec<u8>, HexError>)
    ensures
        r is Ok <==> s@.len() % 2 == 0 && (forall|i: int| 0 <= i < s@.len() ==> is_hex_digit(s@[i])),
        r is Ok ==> r->Ok_0@ == decode_spec(s@),
        r == Err::<Vec<u8>, HexError>(HexError::OddLength) <==> s@.len() % 2 != 0,
        r == Err::<Vec<u8>, HexError>(HexError::InvalidDigit) <==> s@.len() % 2 == 0
            && !(forall|i: int| 0 <= i < s@.len() ==> is_hex_digit(s@[i])),
{
    if s.len() % 2 != 0 {
        return Err(HexError::OddLength);
    }
    let mut r: Vec<u8> = Vec::new();
    let mut i: usize = 0;
    while i + 1 < s.len()
        invariant
            s@.len() % 2 == 0,
            i % 2 == 0,
            i <= s@.len(),
            forall|j: int| 0 <= j < i ==> is_hex_digit(s@[j]),
            r@ =~= decode_spec(s@).subrange(0, i as int / 2),
        decreases s@.len() - i,
    {
        let hi = match hex_value_exec(s[i]) {
            Some(v) => v,
            None => {
                return Err(HexError::InvalidDigit);
            },
        };
        let lo = match hex_value_exec(s[i + 1]) {
            Some(v) => v,
            None => {
                return Err(HexError::InvalidDigit);
            },
        };
        r.push(16 * hi + lo);
        i = i + 2;
        proof {
            assert(r@ =~= decode_spec(s@).subrange(0, i as int / 2));
        }
    }
    proof {
        assert(i == s@.len());
        assert(r@ =~= decode_spec(s@));
    }
    Ok(r)
}

/// Round-trip law: re-encoding the bytes decoded from an upper-case hex
/// string reproduces that string exactly.  This is what lets the protocol
/// reason at the hex level about packets that are transmitted as raw bytes.
pub proof fn lemma_hex_roundtrip(s: Seq<u8>)
    requires
        s.len() % 2 == 0,
        forall|i: int| 0 <= i < s.len() ==> is_upper_hex_digit(s[i]),
    ensures
        encode_spec(decode_spec(s)) == s,
{
    let d = decode_spec(s);
    assert forall|i: int| 0 <= i < 2 * d.len() implies encode_spec(d)[i] == s[i] by {
        let b = d[i / 2];
        let hi = hex_value(s[2 * (i / 2)]);
        let lo = hex_value(s[2 * (i / 2) + 1]);
        assert(0 <= hi < 16 && 0 <= lo < 16);
        assert(b == 16 * hi + lo);
        assert(b / 16 == hi && b % 16 == lo) by {
            vstd::arithmetic::div_mod::lemma_fundamental_div_mod_converse(16 * hi + lo, 16, hi, lo);
        }
        if i % 2 == 0 {
            assert(2 * (i / 2) == i);
            assert(hex_digit_of(hi) == s[i]);
        } else {
            assert(2 * (i / 2) + 1 == i);
            assert(hex_digit_of(lo) == s[i]);
        }
    }
    assert(encode_spec(d) =~= s);
}

/// Companion law: decoding the encoder's own output gives the bytes back,
/// and that output is always even-length upper-case hex.
pub proof fn lemma_decode_encode(b: Seq<u8>)
    ensures
        encode_spec(b).len() == 2 * b.len(),
        forall|i: int| 0 <= i < 2 * b.len() ==> is_upper_hex_digit(#[trigger] encode_spec(b)[i]),
        decode_spec(encode_spec(b)) == b,
{
    let e = encode_spec(b);
    assert forall|i: int| 0 <= i < 2 * b.len() implies is_upper_hex_digit(#[trigger] e[i]) by {
        assert(0 <= b[i / 2] / 16 < 16 && 0 <= b[i / 2] % 16 < 16);
    }
    assert forall|i: int| 0 <= i < b.len() implies decode_spec(e)[i] == b[i] by {
        assert(e[2 * i] == hex_digit_of((b[i] / 16) as int));
        assert(e[2 * i + 1] == hex_digit_of((b[i] % 16) as int));
        assert(hex_value(hex_digit_of((b[i] / 16) as int)) == b[i] / 16);
        assert(hex_value(hex_digit_of((b[i] % 16) as int)) == b[i] % 16);
        assert(16 * (b[i] / 16) + b[i] % 16 == b[i]) by {
            vstd::arithmetic::div_mod::lemma_fundamental_div_mod(b[i] as int, 16);
        }
    }
    assert(decode_spec(e) =~= b);
}

} // verus!
