//! SHA-256 (FIPS 180-4), used to check package binaries against the digest
//! stored in their header.
use vstd::prelude::*;

verus! {

/// Addition modulo 2^32.
pub open spec fn wadd(x: u32, y: u32) -> u32 {
    if x + y > u32::MAX {
        (x + y - 0x1_0000_0000) as u32
    } else {
        (x + y) as u32
    }
}

/// Rotation right by `n` bits, for `0 < n < 32`.
pub open spec fn rotr(x: u32, n: u32) -> u32 {
    (x >> n) | (x << ((32 - n) as u32))
}

pub open spec fn big_sigma0(x: u32) -> u32 {
    rotr(x, 2) ^ rotr(x, 13) ^ rotr(x, 22)
}

pub open spec fn big_sigma1(x: u32) -> u32 {
    rotr(x, 6) ^ rotr(x, 11) ^ rotr(x, 25)
}

pub open spec fn small_sigma0(x: u32) -> u32 {
    rotr(x, 7) ^ rotr(x, 18) ^ (x >> 3)
}

pub open spec fn small_sigma1(x: u32) -> u32 {
    rotr(x, 17) ^ rotr(x, 19) ^ (x >> 10)
}

pub open spec fn choose_bits(e: u32, f: u32, g: u32) -> u32 {
    (e & f) ^ (!e & g)
}

pub open spec fn majority(a: u32, b: u32, c: u32) -> u32 {
    (a & b) ^ (a & c) ^ (b & c)
}

/// The 64 round constants.
pub open spec fn round_constants() -> Seq<u32> {
    seq![
        0x428a2f98u32, 0x71374491, 0xb5c0fbcf, 0xe9b5dba5, 0x3956c25b, 0x59f111f1, 0x923f82a4,
        0xab1c5ed5, 0xd807aa98, 0x12835b01, 0x243185be, 0x550c7dc3, 0x72be5d74, 0x80deb1fe,
        0x9bdc06a7, 0xc19bf174, 0xe49b69c1, 0xefbe4786, 0x0fc19dc6, 0x240ca1cc, 0x2de92c6f,
        0x4a7484aa, 0x5cb0a9dc, 0x76f988da, 0x983e5152, 0xa831c66d, 0xb00327c8, 0xbf597fc7,
        0xc6e00bf3, 0xd5a79147, 0x06ca6351, 0x14292967, 0x27b70a85, 0x2e1b2138, 0x4d2c6dfc,
        0x53380d13, 0x650a7354, 0x766a0abb, 0x81c2c92e, 0x92722c85, 0xa2bfe8a1, 0xa81a664b,
        0xc24b8b70, 0xc76c51a3, 0xd192e819, 0xd6990624, 0xf40e3585, 0x106aa070, 0x19a4c116,
        0x1e376c08, 0x2748774c, 0x34b0bcb5, 0x391c0cb3, 0x4ed8aa4a, 0x5b9cca4f, 0x682e6ff3,
        0x748f82ee, 0x78a5636f, 0x84c87814, 0x8cc70208, 0x90befffa, 0xa4506ceb, 0xbef9a3f7,
        0xc67178f2,
    ]
}

/// The big-endian word at byte `i` of `b`.
pub open spec fn be_word(b: Seq<u8>, i: int) -> u32 {
    ((b[i] as u32) << 24u32) | ((b[i + 1] as u32) << 16u32) | ((b[i + 2] as u32) << 8u32) | (b[i
        + 3] as u32)
}

/// Word `t` of the message schedule of `block`.
pub open spec fn message_schedule(block: Seq<u8>, t: nat) -> u32
    decreases t,
{
    if t < 16 {
        be_word(block, 4 * t as int)
    } else {
        wadd(
            wadd(
                wadd(message_schedule(block, (t - 16) as nat), small_sigma0(message_schedule(block, (t - 15) as nat))),
                message_schedule(block, (t - 7) as nat),
            ),
            small_sigma1(message_schedule(block, (t - 2) as nat)),
        )
    }
}

/// The working variables after round `t` applied to `s`.
pub open spec fn round(s: Seq<u32>, block: Seq<u8>, t: nat) -> Seq<u32> {
    let t1 = wadd(
        wadd(wadd(wadd(s[7], big_sigma1(s[4])), choose_bits(s[4], s[5], s[6])), round_constants()[t as int]),
        message_schedule(block, t),
    );
    let t2 = wadd(big_sigma0(s[0]), majority(s[0], s[1], s[2]));
    seq![wadd(t1, t2), s[0], s[1], s[2], wadd(s[3], t1), s[4], s[5], s[6]]
}

/// The working variables after the first `t` rounds, starting from `init`.
pub open spec fn rounds(init: Seq<u32>, block: Seq<u8>, t: nat) -> Seq<u32>
    decreases t,
{
    if t == 0 {
        init
    } else {
        round(rounds(init, block, (t - 1) as nat), block, (t - 1) as nat)
    }
}

/// The chaining value after compressing `block` into `state`.
pub open spec fn compress(state: Seq<u32>, block: Seq<u8>) -> Seq<u32> {
    let v = rounds(state, block, 64);
    Seq::new(8, |i: int| wadd(state[i], v[i]))
}

/// Rotates `x` right by `n` bits.
pub fn sha256_rotr(x: u32, n: u32) -> (r: u32)
    requires
        0 < n < 32,
    ensures
        r == rotr(x, n),
{
    (x >> n) | (x << (32 - n))
}

fn add32(x: u32, y: u32) -> (r: u32)
    ensures
        r == wadd(x, y),
{
    x.wrapping_add(y)
}

/// Compresses one 64-byte block into the chaining value.
pub fn sha256_compress(state: &mut [u32; 8], block: &[u8; 64])
    ensures
        final(state)@ == compress(old(state)@, block@),
{
    let k: [u32; 64] = [
        0x428a2f98, 0x71374491, 0xb5c0fbcf, 0xe9b5dba5, 0x3956c25b, 0x59f111f1, 0x923f82a4,
        0xab1c5ed5, 0xd807aa98, 0x12835b01, 0x243185be, 0x550c7dc3, 0x72be5d74, 0x80deb1fe,
        0x9bdc06a7, 0xc19bf174, 0xe49b69c1, 0xefbe4786, 0x0fc19dc6, 0x240ca1cc, 0x2de92c6f,
        0x4a7484aa, 0x5cb0a9dc, 0x76f988da, 0x983e5152, 0xa831c66d, 0xb00327c8, 0xbf597fc7,
        0xc6e00bf3, 0xd5a79147, 0x06ca6351, 0x14292967, 0x27b70a85, 0x2e1b2138, 0x4d2c6dfc,
        0x53380d13, 0x650a7354, 0x766a0abb, 0x81c2c92e, 0x92722c85, 0xa2bfe8a1, 0xa81a664b,
        0xc24b8b70, 0xc76c51a3, 0xd192e819, 0xd6990624, 0xf40e3585, 0x106aa070, 0x19a4c116,
        0x1e376c08, 0x2748774c, 0x34b0bcb5, 0x391c0cb3, 0x4ed8aa4a, 0x5b9cca4f, 0x682e6ff3,
        0x748f82ee, 0x78a5636f, 0x84c87814, 0x8cc70208, 0x90befffa, 0xa4506ceb, 0xbef9a3f7,
        0xc67178f2,
    ];
    assert(k@ =~= round_constants());
    let ghost b = block@;
    let mut w = [0u32; 64];
    let mut t: usize = 0;
    while t < 16
        invariant
            t <= 16,
            b == block@,
            forall|j: int| 0 <= j < t ==> w@[j] == message_schedule(b, j as nat),
        decreases 16 - t,
    {
        let j = t * 4;
        w[t] = ((block[j] as u32) << 24u32) | ((block[j + 1] as u32) << 16u32) | ((block[j
            + 2] as u32) << 8u32) | (block[j + 3] as u32);
        t = t + 1;
    }
    while t < 64
        invariant
            16 <= t <= 64,
            b == block@,
            forall|j: int| 0 <= j < t ==> w@[j] == message_schedule(b, j as nat),
        decreases 64 - t,
    {
        let s0 = sha256_rotr(w[t - 15], 7) ^ sha256_rotr(w[t - 15], 18) ^ (w[t - 15] >> 3);
        let s1 = sha256_rotr(w[t - 2], 17) ^ sha256_rotr(w[t - 2], 19) ^ (w[t - 2] >> 10);
        w[t] = add32(add32(add32(w[t - 16], s0), w[t - 7]), s1);
        t = t + 1;
    }
    let ghost init = state@;
    let mut a = state[0];
    let mut b2 = state[1];
    let mut c = state[2];
    let mut d = state[3];
    let mut e = state[4];
    let mut f = state[5];
    let mut g = state[6];
    let mut h = state[7];
    assert(seq![a, b2, c, d, e, f, g, h] =~= rounds(init, b, 0));
    t = 0;
    while t < 64
        invariant
            t <= 64,
            b == block@,
            init == old(state)@,
            k@ == round_constants(),
            forall|j: int| 0 <= j < 64 ==> w@[j] == message_schedule(b, j as nat),
            seq![a, b2, c, d, e, f, g, h] == rounds(init, b, t as nat),
        decreases 64 - t,
    {
        let ghost prev = seq![a, b2, c, d, e, f, g, h];
        let s1 = sha256_rotr(e, 6) ^ sha256_rotr(e, 11) ^ sha256_rotr(e, 25);
        let ch = (e & f) ^ ((!e) & g);
        let temp1 = add32(add32(add32(add32(h, s1), ch), k[t]), w[t]);
        let s0 = sha256_rotr(a, 2) ^ sha256_rotr(a, 13) ^ sha256_rotr(a, 22);
        let maj = (a & b2) ^ (a & c) ^ (b2 & c);
        let temp2 = add32(s0, maj);
        h = g;
        g = f;
        f = e;
        e = add32(d, temp1);
        d = c;
        c = b2;
        b2 = a;
        a = add32(temp1, temp2);
        assert(seq![a, b2, c, d, e, f, g, h] =~= round(prev, b, t as nat));
        t = t + 1;
    }
    let ghost v = rounds(init, b, 64);
    state[0] = add32(state[0], a);
    state[1] = add32(state[1], b2);
    state[2] = add32(state[2], c);
    state[3] = add32(state[3], d);
    state[4] = add32(state[4], e);
    state[5] = add32(state[5], f);
    state[6] = add32(state[6], g);
    state[7] = add32(state[7], h);
    assert(state@ =~= compress(init, b));
}

/// The initial hash value.
pub open spec fn initial_hash() -> Seq<u32> {
    seq![
        0x6a09e667u32, 0xbb67ae85, 0x3c6ef372, 0xa54ff53a, 0x510e527f, 0x9b05688c, 0x1f83d9ab,
        0x5be0cd19,
    ]
}

/// Message length in bits, modulo 2^64.
pub open spec fn bit_len(len: nat) -> u64 {
    (len as u64) << 3u64
}

/// Length of the padded message: a multiple of 64 with room for the 0x80
/// byte and the 8-byte length.
pub open spec fn padded_len(len: nat) -> nat {
    ((len + 8) / 64 * 64 + 64) as nat
}

/// Byte `j` of `x` in big-endian order.
pub open spec fn be64_byte(x: u64, j: int) -> u8 {
    (x >> ((56 - 8 * j) as u64)) as u8
}

/// `data` followed by 0x80, zeros, and the bit length in big-endian order.
pub open spec fn padded(data: Seq<u8>) -> Seq<u8> {
    let n = data.len();
    let total = padded_len(n);
    Seq::new(
        total,
        |x: int|
            if x < n {
                data[x]
            } else if x == n {
                0x80u8
            } else if x < total - 8 {
                0u8
            } else {
                be64_byte(bit_len(n), x - (total - 8))
            },
    )
}

/// The chaining value after the first `n` blocks of `msg`.
pub open spec fn hash_blocks(msg: Seq<u8>, n: nat) -> Seq<u32>
    decreases n,
{
    if n == 0 {
        initial_hash()
    } else {
        compress(hash_blocks(msg, (n - 1) as nat), msg.subrange(64 * (n - 1), 64 * n as int))
    }
}

/// The words of `s` as big-endian bytes.
pub open spec fn words_to_bytes(s: Seq<u32>) -> Seq<u8> {
    Seq::new(32, |x: int| (s[x / 4] >> ((24 - 8 * (x % 4)) as u32)) as u8)
}

/// The SHA-256 digest of `data`.
pub open spec fn sha256(data: Seq<u8>) -> Seq<u8> {
    let m = padded(data);
    words_to_bytes(hash_blocks(m, m.len() / 64))
}

/// Returns the SHA-256 digest of `data`.
pub fn sha256_digest(data: &[u8]) -> (r: [u8; 32])
    ensures
        r@ == sha256(data@),
{
    let mut state: [u32; 8] = [
        0x6a09e667, 0xbb67ae85, 0x3c6ef372, 0xa54ff53a, 0x510e527f, 0x9b05688c, 0x1f83d9ab,
        0x5be0cd19,
    ];
    assert(state@ =~= initial_hash());
    let ghost m = padded(data@);
    let ghost n = data@.len();
    let len = data.len();
    let mut offset: usize = 0;
    while len - offset >= 64
        invariant
            len == data@.len(),
            n == len,
            m == padded(data@),
            offset <= len,
            offset % 64 == 0,
            state@ == hash_blocks(m, (offset / 64) as nat),
        decreases len - offset,
    {
        let mut block = [0u8; 64];
        let mut i: usize = 0;
        while i < 64
            invariant
                i <= 64,
                offset + 64 <= len == data@.len(),
                forall|j: int| 0 <= j < i ==> block@[j] == data@[offset + j],
            decreases 64 - i,
        {
            block[i] = data[offset + i];
            i = i + 1;
        }
        proof {
            assert(block@ =~= m.subrange(offset as int, offset + 64));
            assert((offset + 64) / 64 == offset / 64 + 1);
        }
        let ghost k = (offset / 64) as nat;
        sha256_compress(&mut state, &block);
        proof {
            assert(64 * k == offset);
            assert(state@ == hash_blocks(m, k + 1));
        }
        offset = offset + 64;
    }
    let rem = len - offset;
    let ghost total = padded_len(n);
    proof {
        assert(offset == len / 64 * 64) by {
            assert(len < offset + 64);
        }
        assert((len + 8) / 64 * 64 == if rem < 56 { offset as int } else { offset + 64 }) by {
            assert(len == offset + rem);
        }
    }
    let mut block = [0u8; 64];
    let mut i: usize = 0;
    while i < rem
        invariant
            i <= rem < 64,
            offset + rem == len == data@.len(),
            forall|j: int| 0 <= j < i ==> block@[j] == data@[offset + j],
            forall|j: int| i <= j < 64 ==> block@[j] == 0,
        decreases rem - i,
    {
        block[i] = data[offset + i];
        i = i + 1;
    }
    block[rem] = 0x80;
    let ghost mut last: int = offset as int;
    if rem >= 56 {
        proof {
            assert(block@ =~= m.subrange(offset as int, offset + 64));
            assert((offset + 64) / 64 == offset / 64 + 1);
        }
        let ghost k = (offset / 64) as nat;
        sha256_compress(&mut state, &block);
        proof {
            assert(64 * k == offset);
            assert(state@ == hash_blocks(m, k + 1));
            last = offset + 64;
        }
        block = [0u8; 64];
    }
    assert(last % 64 == 0 && state@ == hash_blocks(m, (last / 64) as nat));
    let bits = (len as u64) << 3u64;
    block[56] = (bits >> 56u64) as u8;
    block[57] = (bits >> 48u64) as u8;
    block[58] = (bits >> 40u64) as u8;
    block[59] = (bits >> 32u64) as u8;
    block[60] = (bits >> 24u64) as u8;
    block[61] = (bits >> 16u64) as u8;
    block[62] = (bits >> 8u64) as u8;
    block[63] = bits as u8;
    proof {
        assert(last + 64 == total);
        assert forall|j: int| 0 <= j < 8 implies block@[56 + j] == be64_byte(bit_len(n), j) by {
            assert(bits >> 0u64 == bits) by (bit_vector);
        }
        assert(block@ =~= m.subrange(last, last + 64));
        assert((last + 64) / 64 == last / 64 + 1);
    }
    let ghost k = (last / 64) as nat;
    sha256_compress(&mut state, &block);
    proof {
        assert(m.len() / 64 == (last + 64) / 64);
        assert(64 * k == last);
        assert(state@ == hash_blocks(m, k + 1));
    }
    let mut out = [0u8; 32];
    let mut w: usize = 0;
    while w < 8
        invariant
            w <= 8,
            forall|x: int|
                0 <= x < 4 * w ==> out@[x] == (state@[x / 4] >> ((24 - 8 * (x % 4)) as u32)) as u8,
        decreases 8 - w,
    {
        let v = state[w];
        out[4 * w] = (v >> 24u32) as u8;
        out[4 * w + 1] = (v >> 16u32) as u8;
        out[4 * w + 2] = (v >> 8u32) as u8;
        out[4 * w + 3] = v as u8;
        proof {
            assert(v >> 0u32 == v) by (bit_vector);
        }
        w = w + 1;
    }
    assert(out@ =~= words_to_bytes(state@));
    out
}

} // verus!
