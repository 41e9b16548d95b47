use vstd::prelude::*;
use crate::tables::{RCON, SBOX};

verus! {

// ---------------------------------------------------------------------------
// Specification model of the AES-128 block transform.
//
// A block is a sequence of 16 bytes, read column-major: the byte at row r,
// column c of the 4x4 state matrix sits at index c * 4 + r. An expanded key
// schedule is a sequence of 176 bytes: 11 round keys of 16 bytes each.
// ---------------------------------------------------------------------------

/// S-box image of a single byte.
pub open spec fn sub_byte(b: u8) -> u8 {
    SBOX[b as int]
}

/// Doubling in GF(2^8) with reduction polynomial x^8 + x^4 + x^3 + x + 1:
/// shift left one bit and, if the vacated top bit was set, XOR with 0x1b.
pub open spec fn xtime(b: u8) -> u8 {
    if b >= 0x80 {
        (b << 1u8) ^ 0x1b
    } else {
        b << 1u8
    }
}

/// Byte-wise XOR of two equally long byte sequences.
pub open spec fn xor_bytes(a: Seq<u8>, b: Seq<u8>) -> Seq<u8> {
    Seq::new(a.len(), |i: int| a[i] ^ b[i])
}

/// SubBytes: every byte of the state is replaced by its S-box image.
pub open spec fn sub_bytes(s: Seq<u8>) -> Seq<u8> {
    Seq::new(s.len(), |i: int| sub_byte(s[i]))
}

/// ShiftRows: row r of the column-major state matrix is rotated left by r
/// positions, so the byte at row r, column c comes from column (c + r) mod 4.
pub open spec fn shift_rows(s: Seq<u8>) -> Seq<u8> {
    Seq::new(16, |i: int| s[((i / 4 + i % 4) % 4) * 4 + i % 4])
}

/// One output byte of the MixColumns linear combination: the column bytes are
/// given starting at the row being computed, wrapping around the column.
pub open spec fn mix_single(a0: u8, a1: u8, a2: u8, a3: u8) -> u8 {
    xtime(a0) ^ xtime(a1) ^ a1 ^ a2 ^ a3
}

/// MixColumns: each column of the state is replaced by a fixed linear
/// combination of its four bytes over GF(2^8).
pub open spec fn mix_columns(s: Seq<u8>) -> Seq<u8> {
    Seq::new(
        16,
        |i: int|
            mix_single(
                s[(i / 4) * 4 + i % 4],
                s[(i / 4) * 4 + (i % 4 + 1) % 4],
                s[(i / 4) * 4 + (i % 4 + 2) % 4],
                s[(i / 4) * 4 + (i % 4 + 3) % 4],
            ),
    )
}

/// Round key r of an expanded key schedule: bytes 16*r .. 16*r + 16.
pub open spec fn round_key(ks: Seq<u8>, r: int) -> Seq<u8> {
    ks.subrange(16 * r, 16 * r + 16)
}

/// One full middle round: SubBytes, ShiftRows, MixColumns, AddRoundKey.
pub open spec fn cipher_round(s: Seq<u8>, rk: Seq<u8>) -> Seq<u8> {
    xor_bytes(mix_columns(shift_rows(sub_bytes(s))), rk)
}

/// The final round omits MixColumns: SubBytes, ShiftRows, AddRoundKey.
pub open spec fn final_round(s: Seq<u8>, rk: Seq<u8>) -> Seq<u8> {
    xor_bytes(shift_rows(sub_bytes(s)), rk)
}

/// The state after the first n full middle rounds, starting from state s
/// (already whitened with round key 0); round r uses round key r.
pub open spec fn rounds_upto(ks: Seq<u8>, s: Seq<u8>, n: int) -> Seq<u8>
    decreases n,
{
    if n <= 0 {
        s
    } else {
        cipher_round(rounds_upto(ks, s, n - 1), round_key(ks, n))
    }
}

/// The AES-128 block transform: whiten with round key 0, nine full middle
/// rounds, then the final round with round key 10.
pub open spec fn encrypt_block_spec(ks: Seq<u8>, b: Seq<u8>) -> Seq<u8> {
    final_round(rounds_upto(ks, xor_bytes(b, round_key(ks, 0)), 9), round_key(ks, 10))
}

// ---------------------------------------------------------------------------
// Specification model of the key schedule.
//
// The schedule is generated four bytes (one word) at a time. Words 0..4 are
// the key itself; word i is word i-4 XOR word i-1, except that at the start
// of each round (i divisible by 4) word i-1 is first rotated left one byte,
// substituted through the S-box, and its first byte XORed with the round
// constant of round i/4.
// ---------------------------------------------------------------------------

/// Rotate a four-byte word left by one byte.
pub open spec fn rot_word(w: Seq<u8>) -> Seq<u8> {
    seq![w[1], w[2], w[3], w[0]]
}

/// Substitute every byte of a four-byte word through the S-box.
pub open spec fn sub_word(w: Seq<u8>) -> Seq<u8> {
    Seq::new(4, |i: int| sub_byte(w[i]))
}

/// Word i of the expanded key schedule, for i in 0..44.
pub open spec fn ks_word(key: Seq<u8>, i: int) -> Seq<u8>
    decreases i,
{
    if i < 4 {
        key.subrange(4 * i, 4 * i + 4)
    } else if i % 4 == 0 {
        let t = sub_word(rot_word(ks_word(key, i - 1)));
        xor_bytes(ks_word(key, i - 4), t.update(0, t[0] ^ RCON[i / 4 - 1]))
    } else {
        xor_bytes(ks_word(key, i - 4), ks_word(key, i - 1))
    }
}

/// The full 176-byte expanded schedule of a 16-byte key.
pub open spec fn key_schedule(key: Seq<u8>) -> Seq<u8> {
    Seq::new(176, |j: int| ks_word(key, j / 4)[j % 4])
}

/// Every word of the schedule of a 16-byte key is four bytes long.
pub proof fn lemma_ks_word_len(key: Seq<u8>, i: int)
    requires
        key.len() == 16,
        0 <= i,
    ensures
        ks_word(key, i).len() == 4,
    decreases i,
{
    if i >= 4 {
        lemma_ks_word_len(key, i - 4);
    }
}

// ---------------------------------------------------------------------------
// Executable block cipher.
// ---------------------------------------------------------------------------

/// An AES-128 block cipher instance: the expanded key schedule, computed once
/// from a 16-byte key at construction and never mutated afterwards.
pub struct AES {
    pub round_keys: [u8; 176],
}

/// S-box lookup.
fn apply_sbox(b: u8) -> (r: u8)
    ensures
        r == sub_byte(b),
{
    SBOX[b as usize]
}

/// Doubling in GF(2^8).
fn gf_double(b: u8) -> (r: u8)
    ensures
        r == xtime(b),
{
    if b >= 0x80 {
        (b << 1u8) ^ 0x1b
    } else {
        b << 1u8
    }
}

impl AES {
    /// Run the key schedule on a 16-byte key.
    pub fn new(key: &[u8; 16]) -> (r: AES)
        ensures
            r.round_keys@ == key_schedule(key@),
    {
        let mut ks: [u8; 176] = [0u8; 176];
        let mut i: usize = 0;
        while i < 16
            invariant
                i <= 16,
                forall|j: int| 0 <= j < i ==> ks@[j] == key@[j],
            decreases 16 - i,
        {
            ks[i] = key[i];
            i += 1;
        }
        assert forall|j: int| 0 <= j < 16 implies (#[trigger] ks@[j]) == ks_word(key@, j / 4)[j
            % 4] by {
            assert(ks_word(key@, j / 4) == key@.subrange(4 * (j / 4), 4 * (j / 4) + 4));
        }
        let mut w: usize = 4;
        while w < 44
            invariant
                4 <= w <= 44,
                forall|j: int| 0 <= j < 4 * w ==> (#[trigger] ks@[j]) == ks_word(key@, j / 4)[j
                    % 4],
            decreases 44 - w,
        {
            let ghost wi = w as int;
            let t0 = ks[4 * w - 4];
            let t1 = ks[4 * w - 3];
            let t2 = ks[4 * w - 2];
            let t3 = ks[4 * w - 1];
            let x0 = ks[4 * w - 16];
            let x1 = ks[4 * w - 15];
            let x2 = ks[4 * w - 14];
            let x3 = ks[4 * w - 13];
            proof {
                lemma_ks_word_len(key@, wi - 1);
                lemma_ks_word_len(key@, wi - 4);
                assert(ks_word(key@, wi - 1) =~= seq![t0, t1, t2, t3]) by {
                    assert(ks@[4 * wi - 4] == ks_word(key@, (4 * wi - 4) / 4)[(4 * wi - 4) % 4]);
                    assert(ks@[4 * wi - 3] == ks_word(key@, (4 * wi - 3) / 4)[(4 * wi - 3) % 4]);
                    assert(ks@[4 * wi - 2] == ks_word(key@, (4 * wi - 2) / 4)[(4 * wi - 2) % 4]);
                    assert(ks@[4 * wi - 1] == ks_word(key@, (4 * wi - 1) / 4)[(4 * wi - 1) % 4]);
                }
                assert(ks_word(key@, wi - 4) =~= seq![x0, x1, x2, x3]) by {
                    assert(ks@[4 * wi - 16] == ks_word(key@, (4 * wi - 16) / 4)[(4 * wi - 16) % 4]);
                    assert(ks@[4 * wi - 15] == ks_word(key@, (4 * wi - 15) / 4)[(4 * wi - 15) % 4]);
                    assert(ks@[4 * wi - 14] == ks_word(key@, (4 * wi - 14) / 4)[(4 * wi - 14) % 4]);
                    assert(ks@[4 * wi - 13] == ks_word(key@, (4 * wi - 13) / 4)[(4 * wi - 13) % 4]);
                }
            }
            let u0: u8;
            let u1: u8;
            let u2: u8;
            let u3: u8;
            if w % 4 == 0 {
                u0 = apply_sbox(t1) ^ RCON[w / 4 - 1];
                u1 = apply_sbox(t2);
                u2 = apply_sbox(t3);
                u3 = apply_sbox(t0);
            } else {
                u0 = t0;
                u1 = t1;
                u2 = t2;
                u3 = t3;
            }
            proof {
                assert(ks_word(key@, wi) =~= seq![x0 ^ u0, x1 ^ u1, x2 ^ u2, x3 ^ u3]);
            }
            ks[4 * w] = x0 ^ u0;
            ks[4 * w + 1] = x1 ^ u1;
            ks[4 * w + 2] = x2 ^ u2;
            ks[4 * w + 3] = x3 ^ u3;
            proof {
                assert forall|j: int| 0 <= j < 4 * (wi + 1) implies (#[trigger] ks@[j]) == ks_word(
                    key@,
                    j / 4,
                )[j % 4] by {
                    if j >= 4 * wi {
                        assert(j / 4 == wi && j % 4 == j - 4 * wi);
                        assert(ks@[j] == ks_word(key@, wi)[j - 4 * wi]);
                    }
                }
            }
            w += 1;
        }
        proof {
            assert(ks@ =~= key_schedule(key@));
        }
        AES { round_keys: ks }
    }

    /// Encrypt one 16-byte block with the expanded key schedule. The
    /// transform is deterministic and pure: the result depends only on the
    /// schedule and the input block.
    pub fn encrypt_block(&self, block: &[u8; 16]) -> (r: [u8; 16])
        ensures
            r@ == encrypt_block_spec(self.round_keys@, block@),
    {
        let mut state = add_round_key(block, &self.round_keys, 0);
        let ghost initial = state@;
        let mut round: usize = 1;
        while round < 10
            invariant
                1 <= round <= 10,
                initial == xor_bytes(block@, round_key(self.round_keys@, 0)),
                state@ == rounds_upto(self.round_keys@, initial, round - 1),
            decreases 10 - round,
        {
            let subbed = sub_bytes_state(&state);
            let shifted = shift_rows_state(&subbed);
            let mixed = mix_columns_state(&shifted);
            state = add_round_key(&mixed, &self.round_keys, round);
            round += 1;
        }
        let subbed = sub_bytes_state(&state);
        let shifted = shift_rows_state(&subbed);
        add_round_key(&shifted, &self.round_keys, 10)
    }
}

/// XOR a 16-byte state with round key r of a 176-byte schedule.
fn add_round_key(s: &[u8; 16], ks: &[u8; 176], r: usize) -> (out: [u8; 16])
    requires
        r <= 10,
    ensures
        out@ == xor_bytes(s@, round_key(ks@, r as int)),
{
    let mut out: [u8; 16] = [0u8; 16];
    let mut i: usize = 0;
    while i < 16
        invariant
            i <= 16,
            r <= 10,
            forall|j: int| 0 <= j < i ==> out@[j] == xor_bytes(s@, round_key(ks@, r as int))[j],
        decreases 16 - i,
    {
        out[i] = s[i] ^ ks[16 * r + i];
        i += 1;
    }
    proof {
        assert(out@ =~= xor_bytes(s@, round_key(ks@, r as int)));
    }
    out
}

/// Apply SubBytes to a 16-byte state.
fn sub_bytes_state(s: &[u8; 16]) -> (out: [u8; 16])
    ensures
        out@ == sub_bytes(s@),
{
    let mut out: [u8; 16] = [0u8; 16];
    let mut i: usize = 0;
    while i < 16
        invariant
            i <= 16,
            forall|j: int| 0 <= j < i ==> out@[j] == sub_bytes(s@)[j],
        decreases 16 - i,
    {
        out[i] = apply_sbox(s[i]);
        i += 1;
    }
    proof {
        assert(out@ =~= sub_bytes(s@));
    }
    out
}

/// Apply ShiftRows to a 16-byte state.
fn shift_rows_state(s: &[u8; 16]) -> (out: [u8; 16])
    ensures
        out@ == shift_rows(s@),
{
    let mut out: [u8; 16] = [0u8; 16];
    let mut i: usize = 0;
    while i < 16
        invariant
            i <= 16,
            forall|j: int| 0 <= j < i ==> out@[j] == shift_rows(s@)[j],
        decreases 16 - i,
    {
        out[i] = s[((i / 4 + i % 4) % 4) * 4 + i % 4];
        i += 1;
    }
    proof {
        assert(out@ =~= shift_rows(s@));
    }
    out
}

/// Apply MixColumns to a 16-byte state.
fn mix_columns_state(s: &[u8; 16]) -> (out: [u8; 16])
    ensures
        out@ == mix_columns(s@),
{
    let mut out: [u8; 16] = [0u8; 16];
    let mut c: usize = 0;
    while c < 4
        invariant
            c <= 4,
            forall|j: int| 0 <= j < 4 * c ==> out@[j] == mix_columns(s@)[j],
        decreases 4 - c,
    {
        let a0 = s[4 * c];
        let a1 = s[4 * c + 1];
        let a2 = s[4 * c + 2];
        let a3 = s[4 * c + 3];
        out[4 * c] = gf_double(a0) ^ gf_double(a1) ^ a1 ^ a2 ^ a3;
        out[4 * c + 1] = gf_double(a1) ^ gf_double(a2) ^ a2 ^ a3 ^ a0;
        out[4 * c + 2] = gf_double(a2) ^ gf_double(a3) ^ a3 ^ a0 ^ a1;
        out[4 * c + 3] = gf_double(a3) ^ gf_double(a0) ^ a0 ^ a1 ^ a2;
        proof {
            assert forall|j: int| 0 <= j < 4 * (c + 1) implies out@[j] == mix_columns(s@)[j] by {
                if 4 * c <= j {
                    assert(j / 4 == c as int && j % 4 == j - 4 * c);
                }
            }
        }
        c += 1;
    }
    proof {
        assert(out@ =~= mix_columns(s@));
    }
    out
}

} // verus!
