//! Lowercase hexadecimal text forms of identifiers.

use vstd::prelude::*;
use crate::codec::{enc_u16le, dec_u16le, push_u16le, push_slice, lemma_u16_round};
use crate::ids::{OutputId, TransactionId};

verus! {

/// The lowercase hex digit for a nibble value below 16.
pub open spec fn hex_digit(v: u8) -> char {
    if v == 0 {
        '0'
    } else if v == 1 {
        '1'
    } else if v == 2 {
        '2'
    } else if v == 3 {
        '3'
    } else if v == 4 {
        '4'
    } else if v == 5 {
        '5'
    } else if v == 6 {
        '6'
    } else if v == 7 {
        '7'
    } else if v == 8 {
        '8'
    } else if v == 9 {
        '9'
    } else if v == 10 {
        'a'
    } else if v == 11 {
        'b'
    } else if v == 12 {
        'c'
    } else if v == 13 {
        'd'
    } else if v == 14 {
        'e'
    } else {
        'f'
    }
}

/// The nibble value of a hex digit of either case; 255 marks a non-digit.
pub open spec fn hex_val(c: char) -> u8 {
    if c == '0' {
        0
    } else if c == '1' {
        1
    } else if c == '2' {
        2
    } else if c == '3' {
        3
    } else if c == '4' {
        4
    } else if c == '5' {
        5
    } else if c == '6' {
        6
    } else if c == '7' {
        7
    } else if c == '8' {
        8
    } else if c == '9' {
        9
    } else if c == 'a' || c == 'A' {
        10
    } else if c == 'b' || c == 'B' {
        11
    } else if c == 'c' || c == 'C' {
        12
    } else if c == 'd' || c == 'D' {
        13
    } else if c == 'e' || c == 'E' {
        14
    } else if c == 'f' || c == 'F' {
        15
    } else {
        255
    }
}

/// The lowercase hex string of a byte sequence: two digits per byte, high
/// nibble first.
pub open spec fn hex_of(bytes: Seq<u8>) -> Seq<char> {
    Seq::new(
        bytes.len() * 2,
        |i: int|
            if i % 2 == 0 {
                hex_digit(bytes[i / 2] >> 4)
            } else {
                hex_digit(bytes[i / 2] & 0xf)
            },
    )
}

/// The bytes a hex string denotes, when every character is a hex digit and
/// the length is even.
pub open spec fn hex_to_bytes(s: Seq<char>) -> Option<Seq<u8>> {
    if s.len() % 2 == 0 && (forall|i: int| 0 <= i < s.len() ==> hex_val(#[trigger] s[i]) < 16) {
        Some(
            Seq::new(
                (s.len() / 2) as nat,
                |j: int| (hex_val(s[2 * j]) * 16 + hex_val(s[2 * j + 1])) as u8,
            ),
        )
    } else {
        None
    }
}

/// Relies on `hex::encode`: lowercase hex, two digits per byte, high nibble
/// first, in input order.
#[verifier::external_body]
pub(crate) fn hex_encode(bytes: &[u8]) -> (r: String)
    ensures
        r@ == hex_of(bytes@),
{
    hex::encode(bytes)
}

fn hex_val_exec(c: char) -> (r: u8)
    ensures
        r == hex_val(c),
{
    match c {
        '0' => 0,
        '1' => 1,
        '2' => 2,
        '3' => 3,
        '4' => 4,
        '5' => 5,
        '6' => 6,
        '7' => 7,
        '8' => 8,
        '9' => 9,
        'a' | 'A' => 10,
        'b' | 'B' => 11,
        'c' | 'C' => 12,
        'd' | 'D' => 13,
        'e' | 'E' => 14,
        'f' | 'F' => 15,
        _ => 255,
    }
}

/// Parses a hex string into bytes; returns exactly what `hex_to_bytes`
/// defines.
pub fn hex_decode(s: &str) -> (r: Option<Vec<u8>>)
    ensures
        match r {
            Some(v) => hex_to_bytes(s@) == Some(v@),
            None => hex_to_bytes(s@) is None,
        },
{
    let n = s.unicode_len();
    if n % 2 != 0 {
        return None;
    }
    let mut out: Vec<u8> = Vec::new();
    let mut j: usize = 0;
    while j < n / 2
        invariant
            n == s@.len(),
            n % 2 == 0,
            j <= n / 2,
            out@.len() == j,
            forall|i: int| 0 <= i < 2 * j ==> hex_val(#[trigger] s@[i]) < 16,
            forall|k: int|
                0 <= k < j ==> out@[k] == (hex_val(s@[2 * k]) * 16 + hex_val(s@[2 * k + 1])) as u8,
        decreases n / 2 - j,
    {
        let hi = hex_val_exec(s.get_char(2 * j));
        let lo = hex_val_exec(s.get_char(2 * j + 1));
        if hi >= 16 || lo >= 16 {
            proof {
                if hi >= 16 {
                    assert(hex_val(s@[2 * j]) >= 16);
                } else {
                    assert(hex_val(s@[2 * j + 1]) >= 16);
                }
            }
            return None;
        }
        out.push(hi * 16 + lo);
        j += 1;
    }
    proof {
        assert forall|i: int| 0 <= i < s@.len() implies hex_val(#[trigger] s@[i]) < 16 by {
            assert(i < 2 * (n / 2));
        }
        let expected = hex_to_bytes(s@)->Some_0;
        assert(out@ =~= expected);
    }
    Some(out)
}

/// A nibble round trip: reading back the two digits of a byte gives the
/// byte.
pub proof fn lemma_hex_digit_round(v: u8)
    ensures
        hex_val(hex_digit(v >> 4)) < 16,
        hex_val(hex_digit(v & 0xf)) < 16,
        hex_val(hex_digit(v >> 4)) * 16 + hex_val(hex_digit(v & 0xf)) == v,
{
    assert(v >> 4 < 16 && v & 0xf < 16 && (v >> 4) * 16 + (v & 0xf) == v) by (bit_vector);
}

/// Hex round trip: parsing the hex string of any byte sequence gives the
/// bytes back.
pub proof fn lemma_hex_round_trip(bytes: Seq<u8>)
    ensures
        hex_to_bytes(hex_of(bytes)) == Some(bytes),
{
    let s = hex_of(bytes);
    assert(forall|i: int| 0 <= i < s.len() ==> hex_val(#[trigger] s[i]) < 16) by {
        assert forall|i: int| 0 <= i < s.len() implies hex_val(#[trigger] s[i]) < 16 by {
            lemma_hex_digit_round(bytes[i / 2]);
        }
    }
    let decoded = hex_to_bytes(s)->Some_0;
    assert forall|j: int| 0 <= j < bytes.len() implies decoded[j] == bytes[j] by {
        lemma_hex_digit_round(bytes[j]);
        assert(s[2 * j] == hex_digit(bytes[j] >> 4));
        assert(s[2 * j + 1] == hex_digit(bytes[j] & 0xf));
    }
    assert(decoded =~= bytes);
}

/// A transaction input in its text form: the hex of the 32-byte transaction
/// id followed by the hex of the little-endian output index.
#[derive(Clone, Copy, Debug, PartialEq, Eq)]
pub struct UTXOInput(pub OutputId);

impl View for UTXOInput {
    type V = (Seq<u8>, u16);

    open spec fn view(&self) -> (Seq<u8>, u16) {
        self.0@
    }
}

/// The 34 bytes behind the text form of an output reference.
pub open spec fn utxo_bytes(id: Seq<u8>, index: u16) -> Seq<u8> {
    id + enc_u16le(index)
}

/// The output reference a text denotes, if any.
pub open spec fn utxo_of_str(s: Seq<char>) -> Option<(Seq<u8>, u16)> {
    match hex_to_bytes(s) {
        Some(b) => if b.len() == 34 {
            Some((b.subrange(0, 32), dec_u16le(b[32], b[33])))
        } else {
            None
        },
        None => None,
    }
}

impl UTXOInput {
    pub fn new(transaction_id: TransactionId, index: u16) -> (r: Self)
        ensures
            r@ == (transaction_id@, index),
    {
        UTXOInput(OutputId::new(transaction_id, index))
    }

    /// The lowercase hex text form.
    pub fn to_string(&self) -> (r: String)
        ensures
            r@ == hex_of(utxo_bytes(self@.0, self@.1)),
    {
        let mut bytes: Vec<u8> = Vec::new();
        push_slice(&mut bytes, self.0.transaction_id().as_bytes());
        push_u16le(&mut bytes, self.0.index());
        hex_encode(bytes.as_slice())
    }

    /// Parses the text form; succeeds exactly on 68 hex digits.
    pub fn from_str(s: &str) -> (r: Option<Self>)
        ensures
            match r {
                Some(u) => utxo_of_str(s@) == Some((u@.0, u@.1)),
                None => utxo_of_str(s@) is None,
            },
    {
        let bytes = match hex_decode(s) {
            Some(b) => b,
            None => {
                return None;
            },
        };
        if bytes.len() != 34 {
            return None;
        }
        let id = crate::codec::read_bytes32(bytes.as_slice(), 0);
        proof {
            assert(id@ =~= bytes@.subrange(0, 32));
        }
        let index = crate::codec::read_u16le(bytes.as_slice(), 32);
        Some(UTXOInput(OutputId::new(TransactionId::new(id), index)))
    }
}

/// Output-reference text round trip: parsing the text form of any output
/// reference gives the reference back.
pub proof fn lemma_utxo_text_round_trip(id: Seq<u8>, index: u16)
    requires
        id.len() == 32,
    ensures
        utxo_of_str(hex_of(utxo_bytes(id, index))) == Some((id, index)),
{
    let b = utxo_bytes(id, index);
    lemma_hex_round_trip(b);
    lemma_u16_round(index);
    assert(b.subrange(0, 32) =~= id);
    assert(b[32] == enc_u16le(index)[0] && b[33] == enc_u16le(index)[1]);
}

} // verus!
