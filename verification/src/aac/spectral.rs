//! The integer stage of AAC-LC frame decoding: where the raw payload starts after
//! an optional ADTS header, and the quantised spectral values of one channel.
use vstd::prelude::*;
use crate::h264::nal::bits_value;
use super::adts::{AdtsHeader, spec_adts_header};
use super::bitstream::BitReader;
use super::huffman::{Codebook, decode_huffman, decodable, decoded, spec_codebook};

verus! {

/// Where the raw AAC payload of a frame starts: after the ADTS header where the
/// frame has at least seven bytes and starts with a valid header, else at 0.
pub open spec fn spec_payload_offset(d: Seq<u8>) -> int {
    if d.len() >= 7 {
        match spec_adts_header(d) {
            Some(h) => h.header_size_spec(),
            None => 0,
        }
    } else {
        0
    }
}

/// The offset of the raw payload in a frame that may start with an ADTS header.
pub fn payload_offset(data: &[u8]) -> (o: usize)
    requires
        spec_payload_offset(data@) <= data@.len(),
    ensures
        o == spec_payload_offset(data@),
{
    if data.len() >= 7 {
        match AdtsHeader::parse(data) {
            Ok(header) => header.header_size(),
            Err(_) => 0,
        }
    } else {
        0
    }
}

/// Values per codeword that the decoder keeps: none for the zero book, 4 for books
/// 1 to 4, else 2.
pub open spec fn book_dims(c: Codebook) -> nat {
    match c {
        Codebook::Zero => 0,
        Codebook::One | Codebook::Two | Codebook::Three | Codebook::Four => 4,
        _ => 2,
    }
}

/// The step between codeword groups: the codeword's dimension, at least 1.
pub open spec fn book_step(c: Codebook) -> nat {
    if book_dims(c) == 0 { 1 } else { book_dims(c) }
}

/// `acc` with the values of one codeword written from index `i`, as far as the
/// codeword's dimension and the end of `acc` allow.
pub open spec fn put_group(acc: Seq<i16>, i: int, vals: Seq<int>, dims: nat) -> Seq<i16> {
    Seq::new(acc.len(), |k: int| if i <= k < i + dims { vals[k - i] as i16 } else { acc[k] })
}

/// The spectral values after decoding codewords of `c` from bit `p` into groups
/// starting at index `i`: each group takes the values of the next codeword; from
/// the first codeword that runs past the data on, the values stay as they are.
/// The zero book and the books that cannot be decoded leave every value unchanged.
pub open spec fn spectral_groups(s: Seq<u8>, p: int, c: Codebook, i: nat, acc: Seq<i16>) -> Seq<i16>
    decreases acc.len() + 4 - i,
{
    if i >= acc.len() || !decodable(c) || c == Codebook::Zero {
        acc
    } else {
        match decoded(s, p, c, 4) {
            Some((vals, q)) => spectral_groups(s, q, c, i + book_step(c), put_group(acc, i as int, vals, book_dims(c))),
            None => acc,
        }
    }
}

/// The codebook named by the first four bits of the payload, the zero book where
/// there are fewer.
pub open spec fn payload_codebook(s: Seq<u8>) -> Codebook {
    if 4 <= s.len() * 8 { spec_codebook(bits_value(s, 0, 4) as u8) } else { Codebook::Zero }
}

/// The `size` quantised spectral values of one channel: a four-bit codebook index,
/// then codewords of that book filling groups of its dimension.
pub open spec fn spectral_values(s: Seq<u8>, size: nat) -> Seq<i16> {
    let c = payload_codebook(s);
    spectral_groups(s, if 4 <= s.len() * 8 { 4 } else { (s.len() * 8) as int }, c, 0, Seq::new(size, |k: int| 0i16))
}

/// Past the end of the data no codeword of a decodable book other than the zero
/// book can be read.
proof fn lemma_decoded_at_end(s: Seq<u8>, c: Codebook)
    requires
        decodable(c),
        c != Codebook::Zero,
    ensures
        decoded(s, (s.len() * 8) as int, c, 4) is None,
{
}

/// Decode the quantised spectral values of one channel from a raw payload.
pub fn spectral_coefficients(data: &[u8], spectral_size: usize) -> (out: Vec<i16>)
    ensures
        out@ == spectral_values(data@, spectral_size as nat),
{
    let mut reader = BitReader::new(data);
    proof {
        reader.lemma_wf();
        vstd::arithmetic::power2::lemma2_to64();
        crate::h264::nal::lemma_bits_value_bound(data@, 0, 4);
    }
    let idx: u8 = match reader.read_bits(4) {
        Ok(v) => v as u8,
        Err(_) => 0,
    };
    let codebook = Codebook::from_index(idx);
    assert(codebook == payload_codebook(data@));
    let dims = codebook.dimensions();
    let step: usize = if dims == 0 { 1 } else { dims };
    let mut spectral: Vec<i16> = Vec::new();
    let mut k: usize = 0;
    while k < spectral_size
        invariant
            k <= spectral_size,
            spectral@ == Seq::new(k as nat, |j: int| 0i16),
        decreases spectral_size - k,
    {
        spectral.push(0);
        k = k + 1;
    }
    assert(spectral@ == Seq::new(spectral_size as nat, |j: int| 0i16));
    let ghost target = spectral_values(data@, spectral_size as nat);
    let mut coeff_buf = [0i16; 4];
    let mut i: usize = 0;
    while i < spectral_size
        invariant
            reader.wf(),
            reader.bytes() == data@,
            codebook == payload_codebook(data@),
            dims == book_dims(codebook),
            step == book_step(codebook),
            spectral@.len() == spectral_size,
            coeff_buf@.len() == 4,
            target == spectral_values(data@, spectral_size as nat),
            spectral_groups(data@, reader.pos(), codebook, i as nat, spectral@) == target,
        decreases spectral_size - i,
    {
        let ghost p = reader.pos();
        let ghost before = spectral@;
        let r = decode_huffman(&mut reader, codebook, &mut coeff_buf);
        if r.is_ok() {
            let n = if dims < spectral_size - i { dims } else { spectral_size - i };
            let mut j: usize = 0;
            while j < n
                invariant
                    j <= n,
                    n <= dims,
                    i + n <= spectral_size,
                    dims == book_dims(codebook),
                    dims <= 4,
                    coeff_buf@.len() == 4,
                    spectral@.len() == spectral_size,
                    forall|m: int| 0 <= m < spectral_size && !(i <= m < i + j) ==> spectral@[m] == before[m],
                    forall|m: int| i <= m < i + j ==> spectral@[m] == coeff_buf@[m - i],
                decreases n - j,
            {
                spectral.set(i + j, coeff_buf[j]);
                j = j + 1;
            }
            proof {
                if decodable(codebook) && codebook != Codebook::Zero {
                    let (vals, q) = decoded(data@, p, codebook, 4)->0;
                    assert(spectral@ =~= put_group(before, i as int, vals, dims as nat));
                } else if codebook == Codebook::Zero {
                    assert(spectral@ =~= before);
                }
            }
        } else {
            proof {
                if decodable(codebook) && codebook != Codebook::Zero {
                    lemma_decoded_at_end(data@, codebook);
                }
            }
        }
        let ghost old_i = i;
        if step >= spectral_size - i {
            i = spectral_size;
        } else {
            i = i + step;
        }
        proof {
            let c = codebook;
            let acc = spectral@;
            if !decodable(c) || c == Codebook::Zero {
                assert(acc =~= before);
            } else {
                match decoded(data@, p, c, 4) {
                    Some((vals, q)) => {
                        assert(acc == put_group(before, old_i as int, vals, dims as nat));
                        assert(spectral_groups(data@, p, c, old_i as nat, before)
                            == spectral_groups(data@, q, c, (old_i + step) as nat, acc));
                    },
                    None => {
                        lemma_decoded_at_end(data@, c);
                        assert(acc =~= before);
                    },
                }
            }
        }
    }
    spectral
}

} // verus!
