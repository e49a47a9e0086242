//! A one-round, teaching-sized block transform shaped like AES: byte
//! substitution, row shifting, column mixing and round-key addition on a
//! 4x4 column-major byte state, together with the exact inverse of each step.
use vstd::prelude::*;

verus! {

/// The state is a 16-byte block read in column-major order: byte `r + 4 * c`
/// sits in row `r` and column `c`.
pub open spec fn row(i: int) -> int {
    i % 4
}

pub open spec fn col(i: int) -> int {
    i / 4
}

/// Index that `shift_rows` reads for output position `i`: row `r` is rotated
/// left by `r` columns.
pub open spec fn shift_src(i: int) -> int {
    row(i) + 4 * ((col(i) + row(i)) % 4)
}

/// Index that `inv_shift_rows` reads for output position `i`: row `r` is
/// rotated right by `r` columns.
pub open spec fn inv_shift_src(i: int) -> int {
    row(i) + 4 * ((col(i) - row(i) + 4) % 4)
}

pub open spec fn spec_sub_bytes(s: Seq<u8>) -> Seq<u8> {
    Seq::new(16, |i: int| ((s[i] + 1) % 256) as u8)
}

pub open spec fn spec_inv_sub_bytes(s: Seq<u8>) -> Seq<u8> {
    Seq::new(16, |i: int| ((s[i] + 255) % 256) as u8)
}

pub open spec fn spec_shift_rows(s: Seq<u8>) -> Seq<u8> {
    Seq::new(16, |i: int| s[shift_src(i)])
}

pub open spec fn spec_inv_shift_rows(s: Seq<u8>) -> Seq<u8> {
    Seq::new(16, |i: int| s[inv_shift_src(i)])
}

pub open spec fn spec_mix_columns(s: Seq<u8>) -> Seq<u8> {
    Seq::new(16, |i: int| s[i] ^ (i as u8))
}

pub open spec fn spec_add_round_key(s: Seq<u8>, k: Seq<u8>) -> Seq<u8> {
    Seq::new(16, |i: int| s[i] ^ k[i])
}

/// One forward round: substitute, shift rows, mix columns, add the key.
pub open spec fn spec_encrypt(p: Seq<u8>, k: Seq<u8>) -> Seq<u8> {
    spec_add_round_key(spec_mix_columns(spec_shift_rows(spec_sub_bytes(p))), k)
}

/// The inverse round, with the steps undone in reverse order.
pub open spec fn spec_decrypt(c: Seq<u8>, k: Seq<u8>) -> Seq<u8> {
    spec_inv_sub_bytes(spec_inv_shift_rows(spec_mix_columns(spec_add_round_key(c, k))))
}

/// Adds one (mod 256) to every byte of the state.
pub fn sub_bytes(state: &mut [u8; 16])
    ensures
        final(state)@ == spec_sub_bytes(old(state)@),
{
    let mut i: usize = 0;
    while i < 16
        invariant
            0 <= i <= 16,
            forall|j: int| 0 <= j < i ==> state[j] == ((old(state)[j] + 1) % 256) as u8,
            forall|j: int| i <= j < 16 ==> state[j] == old(state)[j],
        decreases 16 - i,
    {
        state[i] = state[i].wrapping_add(1);
        i = i + 1;
    }
    assert(state@ =~= spec_sub_bytes(old(state)@));
}

/// Subtracts one (mod 256) from every byte of the state.
pub fn inv_sub_bytes(state: &mut [u8; 16])
    ensures
        final(state)@ == spec_inv_sub_bytes(old(state)@),
{
    let mut i: usize = 0;
    while i < 16
        invariant
            0 <= i <= 16,
            forall|j: int| 0 <= j < i ==> state[j] == ((old(state)[j] + 255) % 256) as u8,
            forall|j: int| i <= j < 16 ==> state[j] == old(state)[j],
        decreases 16 - i,
    {
        state[i] = state[i].wrapping_sub(1);
        i = i + 1;
    }
    assert(state@ =~= spec_inv_sub_bytes(old(state)@));
}


/// Rotates row `r` of the state left by `r` columns.
pub fn shift_rows(state: &mut [u8; 16])
    ensures
        final(state)@ == spec_shift_rows(old(state)@),
{
    let s = *state;
    state[0] = s[0];
    state[4] = s[4];
    state[8] = s[8];
    state[12] = s[12];
    state[1] = s[5];
    state[5] = s[9];
    state[9] = s[13];
    state[13] = s[1];
    state[2] = s[10];
    state[6] = s[14];
    state[10] = s[2];
    state[14] = s[6];
    state[3] = s[15];
    state[7] = s[3];
    state[11] = s[7];
    state[15] = s[11];
    assert(state@ =~= spec_shift_rows(s@));
}

/// Rotates row `r` of the state right by `r` columns.
pub fn inv_shift_rows(state: &mut [u8; 16])
    ensures
        final(state)@ == spec_inv_shift_rows(old(state)@),
{
    let s = *state;
    state[0] = s[0];
    state[4] = s[4];
    state[8] = s[8];
    state[12] = s[12];
    state[1] = s[13];
    state[5] = s[1];
    state[9] = s[5];
    state[13] = s[9];
    state[2] = s[10];
    state[6] = s[14];
    state[10] = s[2];
    state[14] = s[6];
    state[3] = s[7];
    state[7] = s[11];
    state[11] = s[15];
    state[15] = s[3];
    assert(state@ =~= spec_inv_shift_rows(s@));
}

/// XORs every byte with its own position.
pub fn mix_columns(state: &mut [u8; 16])
    ensures
        final(state)@ == spec_mix_columns(old(state)@),
{
    let mut i: usize = 0;
    while i < 16
        invariant
            0 <= i <= 16,
            forall|j: int| 0 <= j < i ==> state[j] == old(state)[j] ^ (j as u8),
            forall|j: int| i <= j < 16 ==> state[j] == old(state)[j],
        decreases 16 - i,
    {
        state[i] = state[i] ^ (i as u8);
        i = i + 1;
    }
    assert(state@ =~= spec_mix_columns(old(state)@));
}

/// Undoes `mix_columns`; XOR with a fixed mask is its own inverse.
pub fn inv_mix_columns(state: &mut [u8; 16])
    ensures
        final(state)@ == spec_mix_columns(old(state)@),
{
    mix_columns(state);
}

/// XORs the state with the key, byte by byte.
pub fn add_round_key(state: &mut [u8; 16], key: &[u8; 16])
    ensures
        final(state)@ == spec_add_round_key(old(state)@, key@),
{
    let mut i: usize = 0;
    while i < 16
        invariant
            0 <= i <= 16,
            forall|j: int| 0 <= j < i ==> state[j] == old(state)[j] ^ key[j],
            forall|j: int| i <= j < 16 ==> state[j] == old(state)[j],
        decreases 16 - i,
    {
        state[i] = state[i] ^ key[i];
        i = i + 1;
    }
    assert(state@ =~= spec_add_round_key(old(state)@, key@));
}

/// One forward round over a 16-byte block.
pub fn aes_encrypt(plaintext: &[u8; 16], key: &[u8; 16]) -> (ciphertext: [u8; 16])
    ensures
        ciphertext@ == spec_encrypt(plaintext@, key@),
{
    let mut state = *plaintext;
    sub_bytes(&mut state);
    shift_rows(&mut state);
    mix_columns(&mut state);
    add_round_key(&mut state, key);
    state
}

/// The inverse round: undoes `aes_encrypt` under the same key.
pub fn aes_decrypt(ciphertext: &[u8; 16], key: &[u8; 16]) -> (plaintext: [u8; 16])
    ensures
        plaintext@ == spec_decrypt(ciphertext@, key@),
{
    let mut state = *ciphertext;
    add_round_key(&mut state, key);
    inv_mix_columns(&mut state);
    inv_shift_rows(&mut state);
    inv_sub_bytes(&mut state);
    state
}

/// Shifting rows right undoes shifting them left.
pub proof fn lemma_inv_shift_rows_undoes(s: Seq<u8>)
    requires
        s.len() == 16,
    ensures
        spec_inv_shift_rows(spec_shift_rows(s)) == s,
{
    assert forall|i: int| 0 <= i < 16 implies #[trigger] spec_inv_shift_rows(spec_shift_rows(s))[i]
        == s[i] by {
        let j = inv_shift_src(i);
        assert(0 <= j < 16);
        assert(shift_src(j) == i);
    }
    assert(spec_inv_shift_rows(spec_shift_rows(s)) =~= s);
}

/// XOR with the position mask twice gives back the state.
pub proof fn lemma_mix_columns_involution(s: Seq<u8>)
    requires
        s.len() == 16,
    ensures
        spec_mix_columns(spec_mix_columns(s)) == s,
{
    assert forall|i: int| 0 <= i < 16 implies #[trigger] spec_mix_columns(spec_mix_columns(s))[i]
        == s[i] by {
        let x = s[i];
        let m = i as u8;
        assert((x ^ m) ^ m == x) by (bit_vector);
    }
    assert(spec_mix_columns(spec_mix_columns(s)) =~= s);
}

/// Adding the same round key twice gives back the state.
pub proof fn lemma_add_round_key_involution(s: Seq<u8>, k: Seq<u8>)
    requires
        s.len() == 16,
        k.len() == 16,
    ensures
        spec_add_round_key(spec_add_round_key(s, k), k) == s,
{
    assert forall|i: int| 0 <= i < 16 implies #[trigger] spec_add_round_key(
        spec_add_round_key(s, k),
        k,
    )[i] == s[i] by {
        let x = s[i];
        let y = k[i];
        assert((x ^ y) ^ y == x) by (bit_vector);
    }
    assert(spec_add_round_key(spec_add_round_key(s, k), k) =~= s);
}

/// Subtracting one undoes adding one, modulo 256.
pub proof fn lemma_inv_sub_bytes_undoes(s: Seq<u8>)
    requires
        s.len() == 16,
    ensures
        spec_inv_sub_bytes(spec_sub_bytes(s)) == s,
{
    assert(spec_inv_sub_bytes(spec_sub_bytes(s)) =~= s);
}

/// Decrypting with the key a block was encrypted with gives the block back.
pub proof fn lemma_decrypt_encrypt(p: Seq<u8>, k: Seq<u8>)
    requires
        p.len() == 16,
        k.len() == 16,
    ensures
        spec_decrypt(spec_encrypt(p, k), k) == p,
{
    let a = spec_sub_bytes(p);
    let b = spec_shift_rows(a);
    let c = spec_mix_columns(b);
    lemma_add_round_key_involution(c, k);
    lemma_mix_columns_involution(b);
    lemma_inv_shift_rows_undoes(a);
    lemma_inv_sub_bytes_undoes(p);
}

/// Shifting rows left undoes shifting them right.
pub proof fn lemma_shift_rows_undoes(s: Seq<u8>)
    requires
        s.len() == 16,
    ensures
        spec_shift_rows(spec_inv_shift_rows(s)) == s,
{
    assert forall|i: int| 0 <= i < 16 implies #[trigger] spec_shift_rows(spec_inv_shift_rows(s))[i]
        == s[i] by {
        let j = shift_src(i);
        assert(0 <= j < 16);
        assert(inv_shift_src(j) == i);
    }
    assert(spec_shift_rows(spec_inv_shift_rows(s)) =~= s);
}

/// Adding one undoes subtracting one, modulo 256.
pub proof fn lemma_sub_bytes_undoes(s: Seq<u8>)
    requires
        s.len() == 16,
    ensures
        spec_sub_bytes(spec_inv_sub_bytes(s)) == s,
{
    assert(spec_sub_bytes(spec_inv_sub_bytes(s)) =~= s);
}

/// Encrypting a block decrypted under a key gives the block back: under a
/// fixed key the round is a bijection on blocks.
pub proof fn lemma_encrypt_decrypt(c: Seq<u8>, k: Seq<u8>)
    requires
        c.len() == 16,
        k.len() == 16,
    ensures
        spec_encrypt(spec_decrypt(c, k), k) == c,
{
    let a = spec_add_round_key(c, k);
    let b = spec_mix_columns(a);
    let d = spec_inv_shift_rows(b);
    lemma_sub_bytes_undoes(d);
    lemma_shift_rows_undoes(b);
    lemma_mix_columns_involution(a);
    lemma_add_round_key_involution(c, k);
    assert(spec_add_round_key(c, k).len() == 16);
}

/// The key enters by position: byte `i` of the ciphertext under key `k` is
/// byte `i` of the ciphertext under the all-zero key, XORed with `k[i]`;
/// and decrypting under `k` is decrypting, under the all-zero key, the
/// ciphertext XORed with `k` byte by byte.
pub proof fn lemma_key_by_position(p: Seq<u8>, c: Seq<u8>, k: Seq<u8>)
    requires
        p.len() == 16,
        c.len() == 16,
        k.len() == 16,
    ensures
        forall|i: int| 0 <= i < 16 ==> #[trigger] spec_encrypt(p, k)[i] == spec_encrypt(p, Seq::new(16, |j: int| 0u8))[i] ^ k[i],
        spec_decrypt(c, k) == spec_decrypt(Seq::new(16, |j: int| c[j] ^ k[j]), Seq::new(16, |j: int| 0u8)),
{
    let z = Seq::new(16, |j: int| 0u8);
    assert forall|i: int| 0 <= i < 16 implies #[trigger] spec_encrypt(p, k)[i] == spec_encrypt(p, z)[i] ^ k[i] by {
        let s = spec_mix_columns(spec_shift_rows(spec_sub_bytes(p)))[i];
        assert(s ^ 0u8 == s) by (bit_vector);
        assert(z[i] == 0u8);
    }
    let c2 = Seq::new(16, |j: int| c[j] ^ k[j]);
    assert forall|i: int| 0 <= i < 16 implies #[trigger] spec_add_round_key(c, k)[i] == spec_add_round_key(c2, z)[i] by {
        let x = c[i] ^ k[i];
        assert(x ^ 0u8 == x) by (bit_vector);
        assert(z[i] == 0u8);
    }
    assert(spec_add_round_key(c, k) =~= spec_add_round_key(c2, z));
}

} // verus!
