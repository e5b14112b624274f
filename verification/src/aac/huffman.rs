//! Spectral data and scalefactor decoding with the AAC codebooks.
use vstd::prelude::*;
use crate::error::{Error, Result};
use crate::h264::nal::{bits_value, lemma_bits_value_bound};
use super::bitstream::{BitReader, sign_extend};

verus! {

/// The spectral codebooks.
#[derive(Debug, Clone, Copy, PartialEq, Eq, Structural)]
pub enum Codebook {
    Zero,
    One,
    Two,
    Three,
    Four,
    Five,
    Six,
    Seven,
    Eight,
    Nine,
    Ten,
    Eleven,
    Reserved,
    EscapeESC,
}

/// The codebook with the given index: 0 to 11 by number, 12 to 15 reserved, the
/// rest the escape codebook.
pub open spec fn spec_codebook(i: u8) -> Codebook {
    if i == 0 { Codebook::Zero } else if i == 1 { Codebook::One } else if i == 2 { Codebook::Two }
    else if i == 3 { Codebook::Three } else if i == 4 { Codebook::Four } else if i == 5 { Codebook::Five }
    else if i == 6 { Codebook::Six } else if i == 7 { Codebook::Seven } else if i == 8 { Codebook::Eight }
    else if i == 9 { Codebook::Nine } else if i == 10 { Codebook::Ten } else if i == 11 { Codebook::Eleven }
    else if i <= 15 { Codebook::Reserved } else { Codebook::EscapeESC }
}

impl Codebook {
    /// The codebook with the given index.
    pub fn from_index(index: u8) -> (c: Codebook)
        ensures
            c == spec_codebook(index),
    {
        match index {
            0 => Codebook::Zero,
            1 => Codebook::One,
            2 => Codebook::Two,
            3 => Codebook::Three,
            4 => Codebook::Four,
            5 => Codebook::Five,
            6 => Codebook::Six,
            7 => Codebook::Seven,
            8 => Codebook::Eight,
            9 => Codebook::Nine,
            10 => Codebook::Ten,
            11 => Codebook::Eleven,
            12..=15 => Codebook::Reserved,
            _ => Codebook::EscapeESC,
        }
    }

    /// Values per codeword: none for the zero book, 4 for books 1 to 4, else 2.
    pub fn dimensions(&self) -> (n: usize)
        ensures
            n == (match *self {
                Codebook::Zero => 0usize,
                Codebook::One | Codebook::Two | Codebook::Three | Codebook::Four => 4usize,
                _ => 2usize,
            }),
    {
        match self {
            Codebook::Zero => 0,
            Codebook::One | Codebook::Two | Codebook::Three | Codebook::Four => 4,
            _ => 2,
        }
    }

    /// Whether the book codes signed values: books 5, 6, 11 and the escape book.
    pub fn is_signed(&self) -> (b: bool)
        ensures
            b == (*self == Codebook::Five || *self == Codebook::Six || *self == Codebook::Eleven || *self == Codebook::EscapeESC),
    {
        match self {
            Codebook::Five | Codebook::Six | Codebook::Eleven | Codebook::EscapeESC => true,
            _ => false,
        }
    }
}

/// The signed `n`-bit value at bit `p`.
pub open spec fn signed_at(s: Seq<u8>, p: int, n: nat) -> int {
    sign_extend(bits_value(s, p, n), n)
}

/// An escape-coded value at bit `p`: a signed 5-bit value, extended by 5 more bits
/// away from zero where its magnitude reaches 16; the value and the position after it.
pub open spec fn escape_value(s: Seq<u8>, p: int) -> (int, int) {
    let v = signed_at(s, p, 5);
    if v >= 16 || v <= -16 {
        let e = bits_value(s, p + 5, 5) as int;
        (v + (if v > 0 { e } else { -e }), p + 10)
    } else {
        (v, p + 5)
    }
}

/// The values a codebook decodes at bit `p` into an output of `len` values: zeros
/// for the zero book, four 3-bit values for books 1 and 2, two signed 4-bit values
/// for books 5 and 6, two escape values for book 11; with the position after them.
/// `None` where the data ends first.
pub open spec fn decoded(s: Seq<u8>, p: int, codebook: Codebook, len: nat) -> Option<(Seq<int>, int)> {
    let n = s.len() * 8;
    match codebook {
        Codebook::Zero => Some((Seq::new(len, |k: int| 0int), p)),
        Codebook::One | Codebook::Two => if p + 12 <= n {
            Some((seq![bits_value(s, p, 3) as int, bits_value(s, p + 3, 3) as int, bits_value(s, p + 6, 3) as int,
                bits_value(s, p + 9, 3) as int], p + 12))
        } else { None },
        Codebook::Five | Codebook::Six => if p + 8 <= n {
            Some((seq![signed_at(s, p, 4), signed_at(s, p + 4, 4)], p + 8))
        } else { None },
        _ => {
            let (a, q) = escape_value(s, p);
            let (b, r) = escape_value(s, q);
            if p + 5 <= n && (q == p + 5 || p + 10 <= n) && q + 5 <= n && (r == q + 5 || q + 10 <= n) {
                Some((seq![a, b], r))
            } else { None }
        },
    }
}

/// The codebooks that can be decoded: 0, 1, 2, 5, 6 and 11.
pub open spec fn decodable(c: Codebook) -> bool {
    c == Codebook::Zero || c == Codebook::One || c == Codebook::Two || c == Codebook::Five || c == Codebook::Six
        || c == Codebook::Eleven
}

/// The number of values a decodable codebook writes into an output of `len`.
pub open spec fn values_needed(c: Codebook, len: nat) -> nat {
    if c == Codebook::Zero { len } else if c == Codebook::One || c == Codebook::Two { 4 } else { 2 }
}

/// Decode one codeword's values of `codebook` into `output`: the number of values
/// written. Other codebooks are unsupported; an output too small is invalid.
pub fn decode_huffman(reader: &mut BitReader, codebook: Codebook, output: &mut [i16]) -> (r: Result<usize>)
    requires
        old(reader).wf(),
    ensures
        final(reader).wf(),
        final(reader).bytes() == old(reader).bytes(),
        final(output)@.len() == old(output)@.len(),
        !decodable(codebook) ==> (r matches Err(e) && e is Unsupported),
        decodable(codebook) && old(output)@.len() < values_needed(codebook, old(output)@.len() as nat) ==>
            (r matches Err(e) && e.is_invalid()),
        decodable(codebook) && old(output)@.len() >= values_needed(codebook, old(output)@.len() as nat) ==> match decoded(
            old(reader).bytes(), old(reader).pos(), codebook, old(output)@.len() as nat) {
            Some((vals, q)) => r matches Ok(n) && n == vals.len() && final(reader).pos() == q
                && forall|k: int| 0 <= k < vals.len() ==> #[trigger] final(output)@[k] as int == vals[k],
            None => r is Err && final(reader).pos() == old(reader).bytes().len() * 8,
        },
{
    match codebook {
        Codebook::Zero => {
            let n = output.len();
            let mut i: usize = 0;
            while i < n
                invariant
                    0 <= i <= n,
                    n == output@.len(),
                    n == old(output)@.len(),
                    forall|k: int| 0 <= k < i ==> #[trigger] output@[k] == 0,
                decreases n - i,
            {
                output[i] = 0;
                i = i + 1;
            }
            Ok(n)
        },
        Codebook::One | Codebook::Two => decode_unsigned_quad(reader, output),
        Codebook::Five | Codebook::Six => decode_signed_pair(reader, output),
        Codebook::Eleven => decode_signed_pair_escape(reader, output),
        _ => Err(Error::unsupported("AAC Huffman", "Codebook not yet implemented")),
    }
}

fn decode_unsigned_quad(reader: &mut BitReader, output: &mut [i16]) -> (r: Result<usize>)
    requires
        old(reader).wf(),
    ensures
        final(reader).wf(),
        final(reader).bytes() == old(reader).bytes(),
        final(output)@.len() == old(output)@.len(),
        old(output)@.len() < 4 ==> (r matches Err(e) && e.is_invalid()),
        old(output)@.len() >= 4 ==> match decoded(old(reader).bytes(), old(reader).pos(), Codebook::One, old(output)@.len() as nat) {
            Some((vals, q)) => r matches Ok(n) && n == 4 && final(reader).pos() == q
                && forall|k: int| 0 <= k < 4 ==> #[trigger] final(output)@[k] as int == vals[k],
            None => r is Err && final(reader).pos() == old(reader).bytes().len() * 8,
        },
{
    if output.len() < 4 {
        return Err(Error::invalid("AAC", "Output buffer too small for quad"));
    }
    let ghost s = reader.bytes();
    let ghost p = reader.pos();
    proof {
        reader.lemma_wf();
    }
    let mut i: usize = 0;
    while i < 4
        invariant
            0 <= i <= 4,
            reader.wf(),
            reader.bytes() == s,
            s == old(reader).bytes(),
            p == old(reader).pos(),
            output@.len() == old(output)@.len(),
            output@.len() >= 4,
            reader.pos() == p + 3 * i,
            p + 3 * i <= s.len() * 8,
            forall|k: int| 0 <= k < i ==> #[trigger] output@[k] as int == bits_value(s, p + 3 * k, 3) as int,
        decreases 4 - i,
    {
        proof {
            lemma_bits_value_bound(s, p + 3 * i, 3);
            vstd::arithmetic::power2::lemma2_to64();
            reader.lemma_wf();
        }
        let v = reader.read_bits(3)?;
        output[i] = v as i16;
        i = i + 1;
    }
    Ok(4)
}

/// Decode two signed 4-bit values into the start of `output`.
pub fn decode_signed_pair(reader: &mut BitReader, output: &mut [i16]) -> (r: Result<usize>)
    requires
        old(reader).wf(),
    ensures
        final(reader).wf(),
        final(reader).bytes() == old(reader).bytes(),
        final(output)@.len() == old(output)@.len(),
        old(output)@.len() < 2 ==> (r matches Err(e) && e.is_invalid()),
        old(output)@.len() >= 2 ==> match decoded(old(reader).bytes(), old(reader).pos(), Codebook::Five, old(output)@.len() as nat) {
            Some((vals, q)) => r matches Ok(n) && n == 2 && final(reader).pos() == q
                && forall|k: int| 0 <= k < 2 ==> #[trigger] final(output)@[k] as int == vals[k],
            None => r is Err && final(reader).pos() == old(reader).bytes().len() * 8,
        },
{
    if output.len() < 2 {
        return Err(Error::invalid("AAC", "Output buffer too small for pair"));
    }
    let ghost s = reader.bytes();
    let ghost p = reader.pos();
    proof {
        reader.lemma_wf();
    }
    let mut i: usize = 0;
    while i < 2
        invariant
            0 <= i <= 2,
            reader.wf(),
            reader.bytes() == s,
            s == old(reader).bytes(),
            p == old(reader).pos(),
            output@.len() == old(output)@.len(),
            output@.len() >= 2,
            reader.pos() == p + 4 * i,
            p + 4 * i <= s.len() * 8,
            forall|k: int| 0 <= k < i ==> #[trigger] output@[k] as int == signed_at(s, p + 4 * k, 4),
        decreases 2 - i,
    {
        proof {
            reader.lemma_wf();
            lemma_bits_value_bound(s, p + 4 * i, 4);
            vstd::arithmetic::power2::lemma2_to64();
        }
        let v = reader.read_signed(4)?;
        output[i] = v as i16;
        i = i + 1;
    }
    Ok(2)
}

fn read_escape_value(reader: &mut BitReader) -> (r: Result<i16>)
    requires
        old(reader).wf(),
    ensures
        final(reader).wf(),
        final(reader).bytes() == old(reader).bytes(),
        ({
            let s = old(reader).bytes();
            let p = old(reader).pos();
            let (v, q) = escape_value(s, p);
            if p + 5 <= s.len() * 8 && (q == p + 5 || p + 10 <= s.len() * 8) {
                r matches Ok(x) && x as int == v && final(reader).pos() == q && p + 5 <= q <= p + 10
            } else {
                r is Err && final(reader).pos() == s.len() * 8
            }
        }),
{
    let ghost s = reader.bytes();
    let ghost p = reader.pos();
    proof {
        reader.lemma_wf();
        lemma_bits_value_bound(s, p, 5);
        lemma_bits_value_bound(s, p + 5, 5);
        vstd::arithmetic::power2::lemma2_to64();
    }
    let mut value = reader.read_signed(5)? as i16;
    if value >= 16 || value <= -16 {
        let escape_bits = reader.read_bits(5)? as i16;
        if value > 0 {
            value = value + escape_bits;
        } else {
            value = value - escape_bits;
        }
    }
    Ok(value)
}

fn decode_signed_pair_escape(reader: &mut BitReader, output: &mut [i16]) -> (r: Result<usize>)
    requires
        old(reader).wf(),
    ensures
        final(reader).wf(),
        final(reader).bytes() == old(reader).bytes(),
        final(output)@.len() == old(output)@.len(),
        old(output)@.len() < 2 ==> (r matches Err(e) && e.is_invalid()),
        old(output)@.len() >= 2 ==> match decoded(old(reader).bytes(), old(reader).pos(), Codebook::Eleven, old(output)@.len() as nat) {
            Some((vals, q)) => r matches Ok(n) && n == 2 && final(reader).pos() == q
                && forall|k: int| 0 <= k < 2 ==> #[trigger] final(output)@[k] as int == vals[k],
            None => r is Err && final(reader).pos() == old(reader).bytes().len() * 8,
        },
{
    if output.len() < 2 {
        return Err(Error::invalid("AAC", "Output buffer too small for pair"));
    }
    let a = read_escape_value(reader)?;
    output[0] = a;
    let b = read_escape_value(reader)?;
    output[1] = b;
    Ok(2)
}

/// Decode a scalefactor: a signed 8-bit value.
pub fn decode_scalefactor(reader: &mut BitReader) -> (r: Result<i16>)
    requires
        old(reader).wf(),
    ensures
        final(reader).wf(),
        final(reader).bytes() == old(reader).bytes(),
        old(reader).pos() + 8 <= old(reader).bytes().len() * 8 ==>
            (r matches Ok(v) && v == signed_at(old(reader).bytes(), old(reader).pos(), 8)
            && final(reader).pos() == old(reader).pos() + 8),
        old(reader).pos() + 8 > old(reader).bytes().len() * 8 ==> r is Err,
{
    proof {
        lemma_bits_value_bound(reader.bytes(), reader.pos(), 8);
        vstd::arithmetic::power2::lemma2_to64();
    }
    let value = reader.read_signed(8)?;
    Ok(value as i16)
}

} // verus!
