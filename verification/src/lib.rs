//! A base64 codec without padding, working entirely on caller-supplied,
//! exactly sized buffers: no allocation, no `=` padding, no partial chunks.
//!
//! `encode` turns each 3-byte group of the input into 4 characters of the
//! base64 alphabet (`A`-`Z`, `a`-`z`, `0`-`9`, `+`, `/`); `decode` is the
//! exact inverse. Input and output lengths are validated up front, and every
//! function states precisely what it writes and which error it returns.

use vstd::prelude::*;

pub mod pack;
pub mod symbol;

pub use pack::combine_bytes;
pub use pack::split_bytes;
pub use symbol::char_to_index;
pub use symbol::index_to_char;

use pack::combine0;
use pack::combine1;
use pack::combine2;
use pack::split0;
use pack::split1;
use pack::split2;
use pack::split3;
use symbol::char_to_index_spec;
use symbol::index_to_char_spec;
use symbol::is_base64_char;
use vstd::arithmetic::div_mod::lemma_fundamental_div_mod;
use vstd::arithmetic::div_mod::lemma_fundamental_div_mod_converse;
use vstd::slice::slice_subrange;

verus! {

/// Errors returned by `encode` and `index_to_char`.
#[derive(Clone, Copy, Debug, PartialEq, Eq, Structural)]
pub enum EncodeError {
    /// The input length is not a multiple of 3.
    InvalidInputLength,
    /// The output buffer is not exactly 4/3 of the input length.
    InvalidOutputLength,
    /// A 6-bit index was 64 or more; `encode` itself never produces one.
    InvalidIndex,
}

/// Errors returned by `decode` and `char_to_index`.
#[derive(Clone, Copy, Debug, PartialEq, Eq, Structural)]
pub enum DecodeError {
    /// The input length is not a multiple of 4.
    InvalidInputLength,
    /// The output buffer is not exactly 3/4 of the input length.
    InvalidOutputLength,
    /// An input byte is not a character of the base64 alphabet.
    InvalidCharacter,
}

/// The byte at position `k` of the encoding of `input`: position `k` lies in
/// output chunk `k / 4`, which holds the four characters of the split of
/// input bytes `3 * (k / 4)` to `3 * (k / 4) + 2`.
pub open spec fn encode_byte(input: Seq<u8>, k: int) -> u8
    recommends
        input.len() % 3 == 0,
        0 <= k < input.len() * 4 / 3,
{
    let j = k / 4;
    let b0 = input[3 * j];
    let b1 = input[3 * j + 1];
    let b2 = input[3 * j + 2];
    if k % 4 == 0 {
        index_to_char_spec(split0(b0))
    } else if k % 4 == 1 {
        index_to_char_spec(split1(b0, b1))
    } else if k % 4 == 2 {
        index_to_char_spec(split2(b1, b2))
    } else {
        index_to_char_spec(split3(b2))
    }
}

/// The full encoding of `input`: 4 alphabet characters for every 3 bytes.
pub open spec fn encode_spec(input: Seq<u8>) -> Seq<u8>
    recommends
        input.len() % 3 == 0,
{
    Seq::new(input.len() * 4 / 3, |k: int| encode_byte(input, k))
}

/// Encodes `data` into `out` as unpadded base64, 4 characters for every 3
/// input bytes. The input length must be a multiple of 3 and the output
/// buffer exactly 4/3 of it; on either length error nothing is written.
pub fn encode(data: &[u8], out: &mut [u8]) -> (r: Result<(), EncodeError>)
    ensures
        final(out)@.len() == old(out)@.len(),
        data@.len() % 3 != 0 ==> r == Err::<(), EncodeError>(EncodeError::InvalidInputLength)
            && final(out)@ == old(out)@,
        data@.len() % 3 == 0 && old(out)@.len() != data@.len() * 4 / 3 ==> r == Err::<
            (),
            EncodeError,
        >(EncodeError::InvalidOutputLength) && final(out)@ == old(out)@,
        data@.len() % 3 == 0 && old(out)@.len() == data@.len() * 4 / 3 ==> r == Ok::<
            (),
            EncodeError,
        >(()) && final(out)@ == encode_spec(data@),
{
    let nin = data.len();
    let nout = out.len();
    let nchunks = nin / 3;
    if nin % 3 != 0 {
        return Err(EncodeError::InvalidInputLength);
    }
    proof {
        lemma_fundamental_div_mod(nin as int, 3);
        assert(nin * 4 / 3 == 4 * nchunks) by (nonlinear_arith)
            requires
                nin == 3 * nchunks,
        ;
    }
    if (nout as u128) != 4 * (nchunks as u128) {
        return Err(EncodeError::InvalidOutputLength);
    }
    let mut j: usize = 0;
    while j < nchunks
        invariant
            j <= nchunks,
            nin == data@.len(),
            nin == 3 * nchunks,
            nout == 4 * nchunks,
            out@.len() == old(out)@.len(),
            out@.len() == nout,
            forall|k: int| 0 <= k < 4 * j ==> out@[k] == encode_byte(data@, k),
        decreases nchunks - j,
    {
        let d = slice_subrange(data, 3 * j, 3 * j + 3);
        let split = split_bytes(d);
        proof {
            pack::lemma_split_in_range(d@[0], d@[1], d@[2]);
        }
        let c0 = match index_to_char(split[0]) {
            Ok(c) => c,
            Err(e) => return Err(e),
        };
        let c1 = match index_to_char(split[1]) {
            Ok(c) => c,
            Err(e) => return Err(e),
        };
        let c2 = match index_to_char(split[2]) {
            Ok(c) => c,
            Err(e) => return Err(e),
        };
        let c3 = match index_to_char(split[3]) {
            Ok(c) => c,
            Err(e) => return Err(e),
        };
        out[4 * j] = c0;
        out[4 * j + 1] = c1;
        out[4 * j + 2] = c2;
        out[4 * j + 3] = c3;
        proof {
            assert forall|k: int| 0 <= k < 4 * (j + 1) implies out@[k] == encode_byte(data@, k) by {
                if 4 * j <= k {
                    lemma_fundamental_div_mod_converse(k, 4, j as int, k - 4 * j);
                }
            }
        }
        j = j + 1;
    }
    proof {
        assert(out@ =~= encode_spec(data@));
    }
    Ok(())
}

/// Whether every byte of `s` is a character of the base64 alphabet.
pub open spec fn all_base64_chars(s: Seq<u8>) -> bool {
    forall|i: int| 0 <= i < s.len() ==> is_base64_char(#[trigger] s[i])
}

/// Whether the four bytes of chunk `j` of `s` are all alphabet characters.
pub open spec fn chunk_chars_valid(s: Seq<u8>, j: int) -> bool {
    forall|i: int| 4 * j <= i < 4 * j + 4 ==> is_base64_char(#[trigger] s[i])
}

/// The byte at position `k` of the decoding of `input`: position `k` lies in
/// output chunk `k / 3`, which holds the three bytes combined from the 6-bit
/// indices of input characters `4 * (k / 3)` to `4 * (k / 3) + 3`.
pub open spec fn decode_byte(input: Seq<u8>, k: int) -> u8
    recommends
        input.len() % 4 == 0,
        0 <= k < input.len() * 3 / 4,
{
    let j = k / 3;
    let i0 = char_to_index_spec(input[4 * j]);
    let i1 = char_to_index_spec(input[4 * j + 1]);
    let i2 = char_to_index_spec(input[4 * j + 2]);
    let i3 = char_to_index_spec(input[4 * j + 3]);
    if k % 3 == 0 {
        combine0(i0, i1)
    } else if k % 3 == 1 {
        combine1(i1, i2)
    } else {
        combine2(i2, i3)
    }
}

/// The full decoding of `input`: 3 bytes for every 4 alphabet characters.
pub open spec fn decode_spec(input: Seq<u8>) -> Seq<u8>
    recommends
        input.len() % 4 == 0,
        all_base64_chars(input),
{
    Seq::new(input.len() * 3 / 4, |k: int| decode_byte(input, k))
}

/// Decodes unpadded base64 from `data` into `out`, 3 bytes for every 4 input
/// characters. The input length must be a multiple of 4 and the output
/// buffer exactly 3/4 of it; on either length error nothing is written. On
/// the first chunk holding a byte outside the alphabet the call stops:
/// earlier chunks stay decoded in `out`, the rest of `out` is untouched.
pub fn decode(data: &[u8], out: &mut [u8]) -> (r: Result<(), DecodeError>)
    ensures
        final(out)@.len() == old(out)@.len(),
        data@.len() % 4 != 0 ==> r == Err::<(), DecodeError>(DecodeError::InvalidInputLength)
            && final(out)@ == old(out)@,
        data@.len() % 4 == 0 && old(out)@.len() != data@.len() * 3 / 4 ==> r == Err::<
            (),
            DecodeError,
        >(DecodeError::InvalidOutputLength) && final(out)@ == old(out)@,
        data@.len() % 4 == 0 && old(out)@.len() == data@.len() * 3 / 4 && all_base64_chars(data@)
            ==> r == Ok::<(), DecodeError>(()) && final(out)@ == decode_spec(data@),
        data@.len() % 4 == 0 && old(out)@.len() == data@.len() * 3 / 4 && !all_base64_chars(data@)
            ==> r == Err::<(), DecodeError>(DecodeError::InvalidCharacter) && (exists|j: int|
            #![auto]
            0 <= j && 4 * j < data@.len() && !chunk_chars_valid(data@, j) && (forall|jj: int|
                0 <= jj < j ==> chunk_chars_valid(data@, jj)) && (forall|k: int|
                0 <= k < 3 * j ==> final(out)@[k] == decode_byte(data@, k)) && (forall|k: int|
                3 * j <= k < old(out)@.len() ==> final(out)@[k] == old(out)@[k])),
{
    let nin = data.len();
    let nout = out.len();
    let nchunks = nin / 4;
    if nin % 4 != 0 {
        return Err(DecodeError::InvalidInputLength);
    }
    proof {
        lemma_fundamental_div_mod(nin as int, 4);
        assert(nin * 3 / 4 == 3 * nchunks) by (nonlinear_arith)
            requires
                nin == 4 * nchunks,
        ;
    }
    if (nout as u128) != 3 * (nchunks as u128) {
        return Err(DecodeError::InvalidOutputLength);
    }
    let mut j: usize = 0;
    while j < nchunks
        invariant
            j <= nchunks,
            nin == data@.len(),
            nin == 4 * nchunks,
            nout == 3 * nchunks,
            out@.len() == old(out)@.len(),
            out@.len() == nout,
            forall|i: int| 0 <= i < 4 * j ==> is_base64_char(#[trigger] data@[i]),
            forall|k: int| 0 <= k < 3 * j ==> out@[k] == decode_byte(data@, k),
            forall|k: int| 3 * j <= k < out@.len() ==> out@[k] == old(out)@[k],
        decreases nchunks - j,
    {
        let r0 = char_to_index(data[4 * j]);
        let r1 = char_to_index(data[4 * j + 1]);
        let r2 = char_to_index(data[4 * j + 2]);
        let r3 = char_to_index(data[4 * j + 3]);
        if r0.is_err() || r1.is_err() || r2.is_err() || r3.is_err() {
            proof {
                assert(!is_base64_char(data@[4 * j]) || !is_base64_char(data@[4 * j + 1])
                    || !is_base64_char(data@[4 * j + 2]) || !is_base64_char(data@[4 * j + 3]));
                assert(!chunk_chars_valid(data@, j as int));
                assert(!all_base64_chars(data@));
                assert forall|jj: int| 0 <= jj < j implies chunk_chars_valid(data@, jj) by {
                    assert(forall|i: int|
                        4 * jj <= i < 4 * jj + 4 ==> is_base64_char(#[trigger] data@[i]));
                }
            }
            return Err(DecodeError::InvalidCharacter);
        }
        let converted = [r0.unwrap(), r1.unwrap(), r2.unwrap(), r3.unwrap()];
        let combined = combine_bytes(converted.as_slice());
        out[3 * j] = combined[0];
        out[3 * j + 1] = combined[1];
        out[3 * j + 2] = combined[2];
        proof {
            assert(converted@ =~= seq![
                char_to_index_spec(data@[4 * j]),
                char_to_index_spec(data@[4 * j + 1]),
                char_to_index_spec(data@[4 * j + 2]),
                char_to_index_spec(data@[4 * j + 3]),
            ]);
            assert forall|k: int| 0 <= k < 3 * (j + 1) implies out@[k] == decode_byte(data@, k) by {
                if 3 * j <= k {
                    lemma_fundamental_div_mod_converse(k, 3, j as int, k - 3 * j);
                }
            }
        }
        j = j + 1;
    }
    proof {
        assert(out@ =~= decode_spec(data@));
    }
    Ok(())
}

/// An encoding is always well-formed decoder input: its length is the
/// required multiple of 4 and every byte is an alphabet character.
pub proof fn lemma_encode_all_base64(input: Seq<u8>)
    requires
        input.len() % 3 == 0,
    ensures
        encode_spec(input).len() == input.len() * 4 / 3,
        encode_spec(input).len() % 4 == 0,
        all_base64_chars(encode_spec(input)),
{
    let enc = encode_spec(input);
    let c = input.len() as int / 3;
    lemma_fundamental_div_mod(input.len() as int, 3);
    assert(enc.len() == 4 * c) by (nonlinear_arith)
        requires
            input.len() == 3 * c,
            enc.len() == input.len() * 4 / 3,
    ;
    lemma_fundamental_div_mod_converse(4 * c, 4, c, 0);
    assert forall|k: int| 0 <= k < enc.len() implies is_base64_char(#[trigger] enc[k]) by {
        let j = k / 4;
        vstd::arithmetic::div_mod::lemma_mod_pos_bound(k, 4);
        lemma_fundamental_div_mod(k, 4);
        pack::lemma_split_in_range(input[3 * j], input[3 * j + 1], input[3 * j + 2]);
        symbol::lemma_index_char_round_trip(split0(input[3 * j]));
        symbol::lemma_index_char_round_trip(split1(input[3 * j], input[3 * j + 1]));
        symbol::lemma_index_char_round_trip(split2(input[3 * j + 1], input[3 * j + 2]));
        symbol::lemma_index_char_round_trip(split3(input[3 * j + 2]));
    }
}

/// Round trip: decoding the encoding of any byte sequence whose length is a
/// multiple of 3 returns that sequence unchanged.
pub proof fn lemma_decode_encode_round_trip(input: Seq<u8>)
    requires
        input.len() % 3 == 0,
    ensures
        decode_spec(encode_spec(input)) == input,
{
    let enc = encode_spec(input);
    let dec = decode_spec(enc);
    let c = input.len() as int / 3;
    lemma_encode_all_base64(input);
    lemma_fundamental_div_mod(input.len() as int, 3);
    assert(enc.len() == 4 * c) by (nonlinear_arith)
        requires
            input.len() == 3 * c,
            enc.len() == input.len() * 4 / 3,
    ;
    assert(dec.len() == 3 * c) by (nonlinear_arith)
        requires
            enc.len() == 4 * c,
            dec.len() == enc.len() * 3 / 4,
    ;
    assert forall|k: int| 0 <= k < input.len() implies dec[k] == input[k] by {
        let j = k / 3;
        vstd::arithmetic::div_mod::lemma_mod_pos_bound(k, 3);
        lemma_fundamental_div_mod(k, 3);
        let b0 = input[3 * j];
        let b1 = input[3 * j + 1];
        let b2 = input[3 * j + 2];
        lemma_fundamental_div_mod_converse(4 * j, 4, j, 0);
        lemma_fundamental_div_mod_converse(4 * j + 1, 4, j, 1);
        lemma_fundamental_div_mod_converse(4 * j + 2, 4, j, 2);
        lemma_fundamental_div_mod_converse(4 * j + 3, 4, j, 3);
        assert(enc[4 * j] == index_to_char_spec(split0(b0)));
        assert(enc[4 * j + 1] == index_to_char_spec(split1(b0, b1)));
        assert(enc[4 * j + 2] == index_to_char_spec(split2(b1, b2)));
        assert(enc[4 * j + 3] == index_to_char_spec(split3(b2)));
        pack::lemma_split_in_range(b0, b1, b2);
        symbol::lemma_index_char_round_trip(split0(b0));
        symbol::lemma_index_char_round_trip(split1(b0, b1));
        symbol::lemma_index_char_round_trip(split2(b1, b2));
        symbol::lemma_index_char_round_trip(split3(b2));
        pack::lemma_combine_split(b0, b1, b2);
    }
    assert(dec =~= input);
}

} // verus!
