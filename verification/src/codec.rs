use vstd::arithmetic::div_mod::lemma_fundamental_div_mod_converse;
use vstd::prelude::*;

verus! {

/// Direction of the byte transform: encoding shifts every non-pivot byte up
/// by the derived key, decoding shifts it back down.
#[derive(Copy, Clone, Debug, PartialEq, Eq, Structural)]
pub enum Mode {
    Encode,
    Decode,
}

/// The pivot index of a buffer: the integer-floor-half offset of its length.
pub open spec fn pivot_index(c: Seq<u8>) -> int {
    c.len() as int / 2
}

/// The derived key: the value of the pivot byte, or 7 when the pivot byte
/// is zero.
pub open spec fn derived_key(c: Seq<u8>) -> u8
    recommends
        c.len() >= 3,
{
    if c[pivot_index(c)] == 0 {
        7
    } else {
        c[pivot_index(c)]
    }
}

/// One byte shifted by the key: addition modulo 256 when encoding,
/// subtraction modulo 256 when decoding.
pub open spec fn shift_byte(mode: Mode, b: u8, k: u8) -> u8 {
    match mode {
        Mode::Encode => ((b + k) % 256) as u8,
        Mode::Decode => ((b - k) % 256) as u8,
    }
}

/// The transformed buffer: same length as the source, every byte shifted by
/// the derived key except the pivot byte, which is carried through unchanged
/// so that decoding can re-derive the same key.
pub open spec fn transcode_content(mode: Mode, c: Seq<u8>) -> Seq<u8>
    recommends
        c.len() >= 3,
{
    Seq::new(
        c.len(),
        |i: int|
            if i == pivot_index(c) {
                c[i]
            } else {
                shift_byte(mode, c[i], derived_key(c))
            },
    )
}

/// Shifting a byte up and then down by the same key gives the byte back.
pub proof fn lemma_shift_byte_roundtrip(b: u8, k: u8)
    ensures
        shift_byte(Mode::Decode, shift_byte(Mode::Encode, b, k), k) == b,
{
    let s = b + k;
    if s < 256 {
        lemma_fundamental_div_mod_converse(s, 256, 0, s);
        lemma_fundamental_div_mod_converse(b as int, 256, 0, b as int);
    } else {
        lemma_fundamental_div_mod_converse(s, 256, 1, s - 256);
        lemma_fundamental_div_mod_converse(b - 256, 256, -1, b as int);
    }
}

/// Round-trip law: decoding an encoded buffer of length at least 3 gives
/// back the original bytes. The pivot byte is never altered, so the key
/// derived while decoding is the very key that was used to encode.
pub proof fn lemma_content_roundtrip(c: Seq<u8>)
    requires
        c.len() >= 3,
    ensures
        transcode_content(Mode::Decode, transcode_content(Mode::Encode, c)) == c,
{
    let e = transcode_content(Mode::Encode, c);
    let d = transcode_content(Mode::Decode, e);
    assert(e[pivot_index(c)] == c[pivot_index(c)]);
    assert(derived_key(e) == derived_key(c));
    let k = derived_key(c);
    assert forall|i: int| 0 <= i < c.len() implies d[i] == c[i] by {
        if i != pivot_index(c) {
            lemma_shift_byte_roundtrip(c[i], k);
        }
    }
    assert(d =~= c);
}

/// Pivot-invariance law: transcoding keeps the buffer's length and leaves
/// the byte at the pivot offset untouched, in either mode.
pub proof fn lemma_pivot_unchanged(mode: Mode, c: Seq<u8>)
    requires
        c.len() >= 3,
    ensures
        transcode_content(mode, c).len() == c.len(),
        transcode_content(mode, c)[pivot_index(c)] == c[pivot_index(c)],
{
}

/// Key-derivation law for the edge case: when the pivot byte is zero the
/// derived key is 7, so every non-pivot byte of the encoded output is the
/// original plus 7 modulo 256.
pub proof fn lemma_zero_pivot_key(c: Seq<u8>)
    requires
        c.len() >= 3,
        c[pivot_index(c)] == 0,
    ensures
        derived_key(c) == 7,
        forall|i: int|
            0 <= i < c.len() && i != pivot_index(c) ==> transcode_content(Mode::Encode, c)[i] == ((
            c[i] + 7) % 256) as u8,
{
}

/// A wrapping addition is exactly addition modulo 256.
proof fn lemma_wrapping_is_shift(mode: Mode, b: u8, k: u8)
    ensures
        mode == Mode::Encode ==> vstd::wrapping::u8_specs::wrapping_add(b, k) == shift_byte(
            mode,
            b,
            k,
        ),
        mode == Mode::Decode ==> vstd::wrapping::u8_specs::wrapping_sub(b, k) == shift_byte(
            mode,
            b,
            k,
        ),
{
    if b + k < 256 {
        lemma_fundamental_div_mod_converse(b + k, 256, 0, b + k);
    } else {
        lemma_fundamental_div_mod_converse(b + k, 256, 1, b + k - 256);
    }
    if b - k >= 0 {
        lemma_fundamental_div_mod_converse(b - k, 256, 0, b - k);
    } else {
        lemma_fundamental_div_mod_converse(b - k, 256, -1, b - k + 256);
    }
}

/// Applies the byte transform to a whole buffer of length at least 3.
pub fn transcode_bytes(mode: Mode, buf: &Vec<u8>) -> (r: Vec<u8>)
    requires
        buf@.len() >= 3,
    ensures
        r@ == transcode_content(mode, buf@),
{
    let len = buf.len();
    let half = len / 2;
    let pivot = buf[half];
    let key: u8 = if pivot == 0 {
        7
    } else {
        pivot
    };
    let mut out: Vec<u8> = Vec::new();
    let mut i: usize = 0;
    while i < len
        invariant
            i <= len,
            len == buf@.len(),
            buf@.len() >= 3,
            half == pivot_index(buf@),
            key == derived_key(buf@),
            out@.len() == i,
            forall|j: int| 0 <= j < i ==> out@[j] == transcode_content(mode, buf@)[j],
        decreases len - i,
    {
        let b = buf[i];
        let t = if i == half {
            b
        } else {
            match mode {
                Mode::Encode => b.wrapping_add(key),
                Mode::Decode => b.wrapping_sub(key),
            }
        };
        proof {
            lemma_wrapping_is_shift(mode, b, key);
        }
        out.push(t);
        i += 1;
    }
    proof {
        assert(out@ =~= transcode_content(mode, buf@));
    }
    out
}

} // verus!
