use chainlab::aes128::{
    add_round_key, aes_decrypt, aes_encrypt, inv_mix_columns, inv_shift_rows, inv_sub_bytes,
    mix_columns, shift_rows, sub_bytes,
};
use chainlab::bls;
use chainlab::digest::sha256_hex;
use chainlab::ecdsa_ecies;
use chainlab::ed25519;
use chainlab::modular::{mod_add, mod_inv, mod_inv_strict, mod_mul, mod_sub};
use chainlab::paillier::{gcd, l_function, lcm, mod_pow as big_mod_pow, modinv, Paillier};
use chainlab::rsa::{generate_keypair, mod_inverse, mod_pow};
use chainlab::sha256::{right_rotate, sha256};
use chainlab::text::{decimal_string, hex_string};
use chainlab::zksnarks;

fn hex(bytes: &[u8]) -> String {
    bytes.iter().map(|b| format!("{:02x}", b)).collect()
}

#[test]
fn aes_round_trip_of_the_demo_block() {
    let plaintext: [u8; 16] = [0, 1, 2, 3, 4, 5, 6, 7, 8, 9, 10, 11, 12, 13, 14, 15];
    let key = [0u8; 16];
    let ciphertext = aes_encrypt(&plaintext, &key);
    assert_eq!(ciphertext, [1, 7, 9, 19, 1, 15, 9, 3, 1, 7, 9, 3, 1, 15, 9, 3]);
    assert_eq!(aes_decrypt(&ciphertext, &key), plaintext);
}

#[test]
fn aes_round_trip_with_a_key() {
    let plaintext: [u8; 16] = [255, 254, 0, 17, 99, 100, 128, 7, 3, 200, 201, 5, 6, 77, 88, 250];
    let key: [u8; 16] = [9, 8, 7, 6, 5, 4, 3, 2, 1, 0, 255, 128, 64, 32, 16, 8];
    let ciphertext = aes_encrypt(&plaintext, &key);
    assert_ne!(ciphertext, plaintext);
    assert_eq!(aes_decrypt(&ciphertext, &key), plaintext);
}

#[test]
fn aes_steps_and_their_inverses() {
    let start: [u8; 16] = [0, 1, 2, 3, 4, 5, 6, 7, 8, 9, 10, 11, 12, 13, 14, 255];
    let mut s = start;
    sub_bytes(&mut s);
    assert_eq!(s[0], 1);
    assert_eq!(s[15], 0);
    inv_sub_bytes(&mut s);
    assert_eq!(s, start);
    shift_rows(&mut s);
    assert_eq!(s, [0, 5, 10, 255, 4, 9, 14, 3, 8, 13, 2, 7, 12, 1, 6, 11]);
    inv_shift_rows(&mut s);
    assert_eq!(s, start);
    mix_columns(&mut s);
    assert_eq!(s[1], 0);
    assert_eq!(s[3], 0);
    inv_mix_columns(&mut s);
    assert_eq!(s, start);
    let key = [3u8; 16];
    add_round_key(&mut s, &key);
    assert_eq!(s[0], 3);
    add_round_key(&mut s, &key);
    assert_eq!(s, start);
}

#[test]
fn sha256_known_digests() {
    assert_eq!(hex(&sha256("hello, world")), "09ca7e4eaa6e8ae9c7d261167129184883644d07dfba7cbfbc4c8a2e08360d5b");
    assert_eq!(hex(&sha256("abc")), "ba7816bf8f01cfea414140de5dae2223b00361a396177a9cb410ff61f20015ad");
    assert_eq!(hex(&sha256("")), "e3b0c44298fc1c149afbf4c8996fb92427ae41e4649b934ca495991b7852b855");
}

#[test]
fn sha256_two_blocks_matches_sha2() {
    let text = "a fairly long message that needs more than one block of sixty four bytes to hash";
    assert_eq!(hex(&sha256(text)), sha256_hex(text));
}

#[test]
fn sha2_wrapper_digest_is_the_hash_not_the_input() {
    let h = sha256_hex("abc");
    assert_eq!(h, "ba7816bf8f01cfea414140de5dae2223b00361a396177a9cb410ff61f20015ad");
    assert_eq!(h.len(), 64);
}

#[test]
fn aes_encrypt_undoes_decrypt() {
    let key = [7u8; 16];
    let block: [u8; 16] = [0, 1, 2, 3, 250, 251, 252, 253, 254, 255, 9, 8, 7, 6, 5, 4];
    assert_eq!(aes_encrypt(&aes_decrypt(&block, &key), &key), block);
}

#[test]
fn right_rotate_values() {
    assert_eq!(right_rotate(1, 1), 0x8000_0000);
    assert_eq!(right_rotate(0x1234_5678, 8), 0x7812_3456);
    assert_eq!(right_rotate(0x1234_5678, 40), 0x7812_3456);
    assert_eq!(right_rotate(0x1234_5678, 0), 0x1234_5678);
    assert_eq!(right_rotate(0x1234_5678, 32), 0x1234_5678);
}

#[test]
fn text_renderings() {
    assert_eq!(decimal_string(0), "0");
    assert_eq!(decimal_string(1234567890), "1234567890");
    assert_eq!(hex_string(&[0, 15, 16, 255]), "000f10ff");
}

#[test]
fn modular_helpers_follow_truncating_remainders() {
    assert_eq!(mod_add(3, 4, 5), 2);
    assert_eq!(mod_sub(1, 3, 5), 3);
    assert_eq!(mod_mul(3, 4, 5), 2);
    assert_eq!(mod_add(-7, 2, 5), 0);
    assert_eq!(mod_inv(3, 7), 5);
    assert_eq!(mod_inv_strict(3, 7), 5);
    assert_eq!(mod_inv_strict(2, 4), 0);
}

#[test]
fn rsa_demo_round_trip() {
    let ((n, e), (n2, d)) = generate_keypair(61, 53);
    assert_eq!((n, e, n2, d), (3233, 17, 3233, 2753));
    let c = mod_pow(42, e, n);
    assert_eq!(c, 2557);
    assert_eq!(mod_pow(c, d, n), 42);
}

#[test]
fn rsa_mod_inverse_exists_iff_coprime() {
    assert_eq!(mod_inverse(17, 3120), Some(2753));
    assert_eq!(mod_inverse(6, 9), None);
    assert_eq!(mod_pow(5, 0, 7), 1);
}

#[test]
fn paillier_adds_under_encryption() {
    let key = Paillier::keygen(17, 19);
    assert_eq!(key.n, 323);
    assert_eq!(key.n_square, 104329);
    assert_eq!(key.lambda, 144);
    assert_eq!(key.mu, 83);
    let c1 = key.encrypt(7, 3);
    let c2 = key.encrypt(8, 5);
    assert_eq!((c1, c2), (100276, 40398));
    assert_eq!(key.decrypt(c1), 7);
    assert_eq!(key.decrypt(c2), 8);
    assert_eq!(key.decrypt(c1 * c2 % key.n_square), 15);
    let c3 = key.encrypt(300, 2);
    let c4 = key.encrypt(100, 4);
    assert_eq!(key.decrypt(c3 * c4 % key.n_square), (300 + 100) % 323);
}

#[test]
fn paillier_number_helpers() {
    assert_eq!(gcd(16, 18), 2);
    assert_eq!(lcm(16, 18), 144);
    assert_eq!(modinv(3, 7), 5);
    assert_eq!(big_mod_pow(4, 13, 497), 445);
    assert_eq!(l_function(647, 323), 2);
}

#[test]
fn bls_demo_signature_verifies() {
    let (sk, pk) = bls::keygen();
    assert_eq!(sk, 1);
    assert_eq!(pk, Some((1, 2)));
    let sig = bls::sign(1, sk);
    assert_eq!(sig, Some((1, 0)));
    assert!(bls::verify(1, sig, pk));
}

#[test]
fn bls_hash_to_curve_and_sqrt() {
    assert_eq!(bls::hash_to_curve(2, 5), Some((2, 1)));
    assert_eq!(bls::hash_to_curve(3, 5), Some((3, 2)));
    assert_eq!(bls::sqrt_mod(4, 5), Some(2));
    assert_eq!(bls::sqrt_mod(2, 5), None);
    assert_eq!(bls::scalar_mul(2, Some((2, 1)), 4, 5), Some((0, 0)));
    assert_eq!(bls::pairing((2, 1), (3, 2), 5), 1);
    assert!(!bls::verify(1, None, Some((1, 2))));
}

#[test]
fn ecdsa_demo_signature_verifies() {
    let q = ecdsa_ecies::scalar_mul(1, Some((1, 2)), 2, 5);
    assert_eq!(q, Some((1, 2)));
    let sig = ecdsa_ecies::sign(1, 1);
    assert_eq!(sig, (3, 2));
    assert!(ecdsa_ecies::verify(1, sig, q));
    assert_eq!(ecdsa_ecies::sign(2, 1), (3, 6));
    assert!(!ecdsa_ecies::verify(1, (3, 6), q));
}

#[test]
fn ecdsa_point_doubling() {
    assert_eq!(ecdsa_ecies::scalar_mul(2, Some((1, 2)), 2, 5), Some((3, 3)));
    assert_eq!(ecdsa_ecies::point_add(None, Some((1, 2)), 2, 5), Some((1, 2)));
    assert_eq!(ecdsa_ecies::point_add(Some((1, 2)), Some((1, 3)), 2, 5), None);
}

#[test]
fn ed25519_demo_signature_verifies() {
    let pk = ed25519::scalar_mul(1, Some((1, 2)), 1, 5).unwrap();
    assert_eq!(pk, (1, 2));
    let sig = ed25519::sign(1, 1);
    assert_eq!(sig, ((4, 1), 2));
    assert!(ed25519::verify(1, sig, pk));
}

#[test]
fn ed25519_signature_of_message_three_fails_to_verify() {
    let pk = (1, 2);
    let sig = ed25519::sign(3, 1);
    assert_eq!(sig, ((1, 2), 0));
    assert!(!ed25519::verify(3, sig, pk));
    assert_eq!(ed25519::hash(7, 3), 1);
}

#[test]
fn zksnark_demo_proof_verifies() {
    let (pk, vk) = zksnarks::setup();
    assert_eq!(pk, Some((6, 7)));
    assert_eq!(vk, Some((1, 2)));
    let (proof, h) = zksnarks::prove(2, 3, 5, pk);
    assert_eq!((proof, h), (Some((9, 16)), 5));
    assert!(zksnarks::verify(h, proof, vk));
    assert_eq!(zksnarks::scalar_mul(2, Some((1, 2)), 0, 17), Some((6, 7)));
    assert_eq!(zksnarks::scalar_mul(1, Some((1, 2)), 0, 17), Some((1, 2)));
}

#[test]
fn zksnark_hash_divisible_by_order_gives_no_proof_point() {
    let (pk, vk) = zksnarks::setup();
    assert_eq!(zksnarks::scalar_mul(3, Some((1, 2)), 0, 17), None);
    let (proof, h) = zksnarks::prove(1, 2, 3, pk);
    assert_eq!((proof, h), (None, 3));
    assert!(!zksnarks::verify(h, proof, vk));
}

#[test]
fn zksnark_false_statement_has_no_proof() {
    let (pk, vk) = zksnarks::setup();
    assert_eq!(zksnarks::prove(2, 3, 6, pk), (None, 0));
    assert!(!zksnarks::verify(0, None, vk));
    assert_eq!(zksnarks::hash(9, 9), 1);
}

#[test]
fn curve_addition_is_commutative_and_closed() {
    let on_curve = |pt: Option<(i64, i64)>| match pt {
        None => true,
        Some((x, y)) => (y * y - (x * x * x + 2 * x + 1)).rem_euclid(5) == 0,
    };
    let mut points = vec![None];
    for x in 0..5i64 {
        for y in 0..5i64 {
            if on_curve(Some((x, y))) {
                points.push(Some((x, y)));
            }
        }
    }
    assert_eq!(points.len(), 7);
    for &p1 in &points {
        for &p2 in &points {
            let s = ecdsa_ecies::point_add(p1, p2, 2, 5);
            assert_eq!(s, ecdsa_ecies::point_add(p2, p1, 2, 5));
            assert!(on_curve(s));
        }
    }
}
