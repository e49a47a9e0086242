//! A self-contained SHA-256 (FIPS 180-4) over the UTF-8 bytes of a string,
//! specified step by step: padding, message schedule, the 64-round
//! compression function and the big-endian digest.
use vstd::prelude::*;
use vstd::string::StringSliceAdditionalSpecFns;

verus! {

/// The initial hash value H(0).
pub const INITIAL_HASH: [u32; 8] = [
    0x6a09e667, 0xbb67ae85, 0x3c6ef372, 0xa54ff53a,
    0x510e527f, 0x9b05688c, 0x1f83d9ab, 0x5be0cd19,
];

/// The 64 round constants K.
pub const K: [u32; 64] = [
    0x428a2f98, 0x71374491, 0xb5c0fbcf, 0xe9b5dba5, 0x3956c25b, 0x59f111f1, 0x923f82a4, 0xab1c5ed5,
    0xd807aa98, 0x12835b01, 0x243185be, 0x550c7dc3, 0x72be5d74, 0x80deb1fe, 0x9bdc06a7, 0xc19bf174,
    0xe49b69c1, 0xefbe4786, 0x0fc19dc6, 0x240ca1cc, 0x2de92c6f, 0x4a7484aa, 0x5cb0a9dc, 0x76f988da,
    0x983e5152, 0xa831c66d, 0xb00327c8, 0xbf597fc7, 0xc6e00bf3, 0xd5a79147, 0x06ca6351, 0x14292967,
    0x27b70a85, 0x2e1b2138, 0x4d2c6dfc, 0x53380d13, 0x650a7354, 0x766a0abb, 0x81c2c92e, 0x92722c85,
    0xa2bfe8a1, 0xa81a664b, 0xc24b8b70, 0xc76c51a3, 0xd192e819, 0xd6990624, 0xf40e3585, 0x106aa070,
    0x19a4c116, 0x1e376c08, 0x2748774c, 0x34b0bcb5, 0x391c0cb3, 0x4ed8aa4a, 0x5b9cca4f, 0x682e6ff3,
    0x748f82ee, 0x78a5636f, 0x84c87814, 0x8cc70208, 0x90befffa, 0xa4506ceb, 0xbef9a3f7, 0xc67178f2,
];

/// Rotation of a 32-bit word right by `n mod 32` places; a rotation by a
/// multiple of 32 leaves the word as it is.
pub open spec fn spec_rotr(x: u32, n: u32) -> u32 {
    if n & 31 == 0 {
        x
    } else {
        (x >> (n & 31)) | (x << ((32 - (n & 31)) as u32))
    }
}

/// Rotates `x` right by `n mod 32` bits.
pub fn right_rotate(x: u32, n: u32) -> (r: u32)
    ensures
        r == spec_rotr(x, n),
{
    let k = n & 31;
    if k == 0 {
        return x;
    }
    assert(k < 32) by (bit_vector)
        requires
            k == n & 31,
    ;
    (x >> k) | (x << (32 - k))
}


pub open spec fn big_sigma0(a: u32) -> u32 {
    spec_rotr(a, 2) ^ spec_rotr(a, 13) ^ spec_rotr(a, 22)
}

pub open spec fn big_sigma1(e: u32) -> u32 {
    spec_rotr(e, 6) ^ spec_rotr(e, 11) ^ spec_rotr(e, 25)
}

pub open spec fn small_sigma0(x: u32) -> u32 {
    spec_rotr(x, 7) ^ spec_rotr(x, 18) ^ (x >> 3u32)
}

pub open spec fn small_sigma1(x: u32) -> u32 {
    spec_rotr(x, 17) ^ spec_rotr(x, 19) ^ (x >> 10u32)
}

pub open spec fn choose_bits(e: u32, f: u32, g: u32) -> u32 {
    (e & f) ^ (!e & g)
}

pub open spec fn majority(a: u32, b: u32, c: u32) -> u32 {
    (a & b) ^ (a & c) ^ (b & c)
}

/// The big-endian 32-bit word made of bytes `at .. at + 4` of `m`.
pub open spec fn be_word(m: Seq<u8>, at: int) -> u32 {
    ((m[at] as u32) << 24u32) | ((m[at + 1] as u32) << 16u32) | ((m[at + 2] as u32) << 8u32) | (
    m[at + 3] as u32)
}

/// Word `i` of the message schedule of block `blk` of the padded message `m`.
pub open spec fn schedule(m: Seq<u8>, blk: int, i: int) -> u32
    decreases i,
{
    if i < 16 {
        be_word(m, 64 * blk + 4 * i)
    } else {
        schedule(m, blk, i - 16).wrapping_add(small_sigma0(schedule(m, blk, i - 15))).wrapping_add(
            schedule(m, blk, i - 7),
        ).wrapping_add(small_sigma1(schedule(m, blk, i - 2)))
    }
}

/// One compression round on the working variables `[a, b, c, d, e, f, g, h]`.
pub open spec fn round(v: Seq<u32>, k: u32, w: u32) -> Seq<u32> {
    let temp1 = v[7].wrapping_add(big_sigma1(v[4])).wrapping_add(
        choose_bits(v[4], v[5], v[6]),
    ).wrapping_add(k).wrapping_add(w);
    let temp2 = big_sigma0(v[0]).wrapping_add(majority(v[0], v[1], v[2]));
    seq![temp1.wrapping_add(temp2), v[0], v[1], v[2], v[3].wrapping_add(temp1), v[4], v[5], v[6]]
}

/// The working variables after the first `t` rounds on block `blk`,
/// starting from the hash value `h`.
pub open spec fn rounds(h: Seq<u32>, m: Seq<u8>, blk: int, t: int) -> Seq<u32>
    decreases t,
{
    if t <= 0 {
        h
    } else {
        round(rounds(h, m, blk, t - 1), K@[t - 1], schedule(m, blk, t - 1))
    }
}

/// The hash value after block `blk` is folded into `h`.
pub open spec fn compress(h: Seq<u32>, m: Seq<u8>, blk: int) -> Seq<u32> {
    let v = rounds(h, m, blk, 64);
    Seq::new(8, |i: int| h[i].wrapping_add(v[i]))
}

/// The hash value after the first `nb` blocks of the padded message `m`.
pub open spec fn hash_state(m: Seq<u8>, nb: int) -> Seq<u32>
    decreases nb,
{
    if nb <= 0 {
        INITIAL_HASH@
    } else {
        compress(hash_state(m, nb - 1), m, nb - 1)
    }
}

/// How many zero bytes follow the `0x80` marker so that the message length
/// is 56 modulo 64.
pub open spec fn zero_pad_len(len: nat) -> nat {
    ((55 - (len % 64) as int + 64) % 64) as nat
}

/// The eight big-endian bytes of `v`.
pub open spec fn be_u64_bytes(v: u64) -> Seq<u8> {
    Seq::new(8, |i: int| (v >> ((56 - 8 * i) as u64)) as u8)
}

/// The padded message: the input, the byte `0x80`, zero bytes, and the
/// input's length in bits as a big-endian 64-bit number.
pub open spec fn pad(m: Seq<u8>) -> Seq<u8> {
    m + seq![0x80u8] + Seq::new(zero_pad_len(m.len()), |i: int| 0u8) + be_u64_bytes(
        (m.len() * 8) as u64,
    )
}

/// The padding law: the padded message starts with the message, then the
/// byte `0x80`, then zero bytes, and ends with the message's length in bits
/// as eight big-endian bytes; its length is the least multiple of 64 that
/// leaves room for the marker and the length, so fewer than 64 zero bytes
/// are added.
pub proof fn lemma_padding_minimal(m: Seq<u8>)
    requires
        m.len() * 8 <= u64::MAX,
    ensures
        ({
            let p = pad(m);
            let n = m.len();
            &&& p.len() % 64 == 0
            &&& n + 9 <= p.len() < n + 9 + 64
            &&& p.subrange(0, n as int) == m
            &&& p[n as int] == 0x80
            &&& forall|i: int| n < i < p.len() - 8 ==> p[i] == 0
            &&& forall|j: int| 0 <= j < 8 ==> p[p.len() - 8 + j] as int == ((n * 8) as int / length_weight(j)) % 256
        }),
{
    let n = m.len();
    let k = zero_pad_len(n);
    let p = pad(m);
    let r = n % 64;
    vstd::arithmetic::div_mod::lemma_fundamental_div_mod(n as int, 64);
    if r <= 55 {
        assert(k == 55 - r);
    } else {
        assert(k == 119 - r);
    }
    assert(p.len() == n + 1 + k + 8);
    assert(p.len() % 64 == 0) by {
        let q = n as int / 64;
        if r <= 55 {
            assert(p.len() == 64 * (q + 1));
        } else {
            assert(p.len() == 64 * (q + 2));
        }
        vstd::arithmetic::div_mod::lemma_mod_multiples_basic(if r <= 55 { q + 1 } else { q + 2 }, 64);
    }
    assert(p.subrange(0, n as int) =~= m);
    let v = (n * 8) as u64;
    assert forall|j: int| 0 <= j < 8 implies p[p.len() - 8 + j] as int == ((n * 8) as int / length_weight(j)) % 256 by {
        assert(p[p.len() - 8 + j] == be_u64_bytes(v)[j]);
        lemma_length_byte(v, j);
    }
}

/// The weight of byte `j` of an eight-byte big-endian number: `256^(7 - j)`.
pub open spec fn length_weight(j: int) -> int {
    if j == 0 {
        0x100_0000_0000_0000
    } else if j == 1 {
        0x1_0000_0000_0000
    } else if j == 2 {
        0x100_0000_0000
    } else if j == 3 {
        0x1_0000_0000
    } else if j == 4 {
        0x100_0000
    } else if j == 5 {
        0x1_0000
    } else if j == 6 {
        0x100
    } else {
        1
    }
}

proof fn lemma_length_byte(v: u64, j: int)
    requires
        0 <= j < 8,
    ensures
        be_u64_bytes(v)[j] as int == (v as int / length_weight(j)) % 256,
{
    if j == 0 {
        assert((v >> 56u64) as u8 == (v / 0x100_0000_0000_0000) % 256) by (bit_vector);
    } else if j == 1 {
        assert((v >> 48u64) as u8 == (v / 0x1_0000_0000_0000) % 256) by (bit_vector);
    } else if j == 2 {
        assert((v >> 40u64) as u8 == (v / 0x100_0000_0000) % 256) by (bit_vector);
    } else if j == 3 {
        assert((v >> 32u64) as u8 == (v / 0x1_0000_0000) % 256) by (bit_vector);
    } else if j == 4 {
        assert((v >> 24u64) as u8 == (v / 0x100_0000) % 256) by (bit_vector);
    } else if j == 5 {
        assert((v >> 16u64) as u8 == (v / 0x1_0000) % 256) by (bit_vector);
    } else if j == 6 {
        assert((v >> 8u64) as u8 == (v / 0x100) % 256) by (bit_vector);
    } else {
        assert((v >> 0u64) as u8 == (v / 1) % 256) by (bit_vector);
    }
}

/// The 32 digest bytes: each word of the hash value, big-endian.
pub open spec fn digest_bytes(h: Seq<u32>) -> Seq<u8> {
    Seq::new(32, |i: int| (h[i / 4] >> ((24 - 8 * (i % 4)) as u32)) as u8)
}

/// SHA-256 of a byte string.
pub open spec fn spec_sha256(m: Seq<u8>) -> Seq<u8> {
    let p = pad(m);
    digest_bytes(hash_state(p, (p.len() / 64) as int))
}

/// Pads the bytes of a message as SHA-256 prescribes.
fn pad_message(bytes: &[u8]) -> (msg: Vec<u8>)
    requires
        bytes@.len() * 8 <= u64::MAX,
    ensures
        msg@ == pad(bytes@),
        msg@.len() % 64 == 0,
{
    let mut msg: Vec<u8> = vstd::slice::slice_to_vec(bytes);
    let bit_len: u64 = (bytes.len() as u64) * 8;
    msg.push(0x80);
    let ghost len = bytes@.len();
    let ghost k = zero_pad_len(len);
    let mut zeros: usize = 0;
    while msg.len() % 64 != 56
        invariant
            len == bytes@.len(),
            k == zero_pad_len(len),
            zeros <= k,
            msg@ == bytes@ + seq![0x80u8] + Seq::new(zeros as nat, |i: int| 0u8),
            msg@.len() == len + 1 + zeros,
            len * 8 <= u64::MAX,
        decreases k - zeros,
    {
        assert(zeros < k) by {
            if zeros == k {
                assert((len + 1 + k) % 64 == 56);
            }
        }
        msg.push(0);
        zeros = zeros + 1;
        assert(msg@ =~= bytes@ + seq![0x80u8] + Seq::new(zeros as nat, |i: int| 0u8));
    }
    assert(zeros == k) by {
        assert((len + 1 + zeros) % 64 == 56);
        assert(zeros < 64) by {
            assert(k < 64);
        }
    }
    let ghost before = msg@;
    let mut j: u64 = 0;
    while j < 8
        invariant
            j <= 8,
            msg@ == before + be_u64_bytes(bit_len).take(j as int),
            bit_len == len * 8,
        decreases 8 - j,
    {
        msg.push((bit_len >> (56 - 8 * j)) as u8);
        j = j + 1;
        assert(msg@ =~= before + be_u64_bytes(bit_len).take(j as int));
    }
    assert(be_u64_bytes(bit_len).take(8) =~= be_u64_bytes(bit_len));
    assert(msg@ =~= pad(bytes@));
    msg
}


/// The 64-word message schedule of block `blk` of the padded message.
fn message_schedule(msg: &Vec<u8>, blk: usize) -> (w: [u32; 64])
    requires
        64 * blk + 64 <= msg@.len(),
    ensures
        forall|i: int| 0 <= i < 64 ==> w[i] == schedule(msg@, blk as int, i),
{
    let msg_len = msg.len();
    assert(64 * blk + 64 <= msg_len);
    let base = blk * 64;
    let mut w = [0u32; 64];
    let mut i: usize = 0;
    while i < 16
        invariant
            0 <= i <= 16,
            base == 64 * blk,
            64 * blk + 64 <= msg@.len(),
            forall|j: int| 0 <= j < i ==> w[j] == schedule(msg@, blk as int, j),
        decreases 16 - i,
    {
        let at = base + i * 4;
        w[i] = ((msg[at] as u32) << 24u32) | ((msg[at + 1] as u32) << 16u32) | ((msg[at + 2] as u32)
            << 8u32) | (msg[at + 3] as u32);
        i = i + 1;
    }
    while i < 64
        invariant
            16 <= i <= 64,
            forall|j: int| 0 <= j < i ==> w[j] == schedule(msg@, blk as int, j),
        decreases 64 - i,
    {
        let s0 = right_rotate(w[i - 15], 7) ^ right_rotate(w[i - 15], 18) ^ (w[i - 15] >> 3u32);
        let s1 = right_rotate(w[i - 2], 17) ^ right_rotate(w[i - 2], 19) ^ (w[i - 2] >> 10u32);
        w[i] = w[i - 16].wrapping_add(s0).wrapping_add(w[i - 7]).wrapping_add(s1);
        i = i + 1;
    }
    w
}

/// Folds block `blk` of the padded message into the hash value `h`.
fn compress_block(h: &mut [u32; 8], msg: &Vec<u8>, blk: usize)
    requires
        64 * blk + 64 <= msg@.len(),
    ensures
        final(h)@ == compress(old(h)@, msg@, blk as int),
{
    let w = message_schedule(msg, blk);
    let ghost h0 = h@;
    let mut a = h[0];
    let mut b = h[1];
    let mut c = h[2];
    let mut d = h[3];
    let mut e = h[4];
    let mut f = h[5];
    let mut g = h[6];
    let mut h_val = h[7];
    assert(seq![a, b, c, d, e, f, g, h_val] =~= rounds(h0, msg@, blk as int, 0));
    let mut i: usize = 0;
    while i < 64
        invariant
            0 <= i <= 64,
            h@ == h0,
            forall|j: int| 0 <= j < 64 ==> w[j] == schedule(msg@, blk as int, j),
            seq![a, b, c, d, e, f, g, h_val] == rounds(h0, msg@, blk as int, i as int),
        decreases 64 - i,
    {
        let s1 = right_rotate(e, 6) ^ right_rotate(e, 11) ^ right_rotate(e, 25);
        let ch = (e & f) ^ (!e & g);
        let temp1 = h_val.wrapping_add(s1).wrapping_add(ch).wrapping_add(K[i]).wrapping_add(w[i]);
        let s0 = right_rotate(a, 2) ^ right_rotate(a, 13) ^ right_rotate(a, 22);
        let maj = (a & b) ^ (a & c) ^ (b & c);
        let temp2 = s0.wrapping_add(maj);
        let ghost prev = seq![a, b, c, d, e, f, g, h_val];
        h_val = g;
        g = f;
        f = e;
        e = d.wrapping_add(temp1);
        d = c;
        c = b;
        b = a;
        a = temp1.wrapping_add(temp2);
        i = i + 1;
        assert(seq![a, b, c, d, e, f, g, h_val] =~= round(prev, K@[i - 1], w[i - 1 as int]));
    }
    h[0] = h[0].wrapping_add(a);
    h[1] = h[1].wrapping_add(b);
    h[2] = h[2].wrapping_add(c);
    h[3] = h[3].wrapping_add(d);
    h[4] = h[4].wrapping_add(e);
    h[5] = h[5].wrapping_add(f);
    h[6] = h[6].wrapping_add(g);
    h[7] = h[7].wrapping_add(h_val);
    assert(h@ =~= compress(h0, msg@, blk as int));
}

/// SHA-256 of the UTF-8 bytes of `input`, as 32 bytes.
pub fn sha256(input: &str) -> (digest: [u8; 32])
    requires
        input.spec_bytes().len() * 8 <= u64::MAX,
    ensures
        digest@ == spec_sha256(input.spec_bytes()),
{
    let mut h = INITIAL_HASH;
    let msg = pad_message(input.as_bytes());
    let nblocks = msg.len() / 64;
    let mut blk: usize = 0;
    while blk < nblocks
        invariant
            blk <= nblocks,
            nblocks == msg@.len() / 64,
            msg@.len() % 64 == 0,
            h@ == hash_state(msg@, blk as int),
        decreases nblocks - blk,
    {
        compress_block(&mut h, &msg, blk);
        blk = blk + 1;
    }
    let mut result = [0u8; 32];
    let mut i: usize = 0;
    while i < 8
        invariant
            0 <= i <= 8,
            h@ == hash_state(msg@, nblocks as int),
            forall|j: int| 0 <= j < 4 * i ==> result[j] == digest_bytes(h@)[j],
        decreases 8 - i,
    {
        let word = h[i];
        result[i * 4] = (word >> 24u32) as u8;
        result[i * 4 + 1] = (word >> 16u32) as u8;
        result[i * 4 + 2] = (word >> 8u32) as u8;
        result[i * 4 + 3] = (word >> 0u32) as u8;
        assert(word >> 0u32 == word) by (bit_vector);
        proof {
            let b = 4 * i as int;
            assert((b + 0) / 4 == i && (b + 0) % 4 == 0);
            assert((b + 1) / 4 == i && (b + 1) % 4 == 1);
            assert((b + 2) / 4 == i && (b + 2) % 4 == 2);
            assert((b + 3) / 4 == i && (b + 3) % 4 == 3);
        }
        i = i + 1;
    }
    assert(result@ =~= digest_bytes(h@));
    result
}

} // verus!
