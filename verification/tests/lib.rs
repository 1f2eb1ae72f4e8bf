//! Key generation and encryption round-trip tests.

use sha1::Digest;

use ntru::encparams::{all_param_sets, EncParams};
use ntru::rand::{init, init_det, rng_default, rng_igf2};
use ntru::types::{IntPoly, KeyPair, PrivateKey, PublicKey, TernPoly};

fn encrypt_poly(m: IntPoly, r: &TernPoly, h: &IntPoly, q: u16) -> IntPoly {
    let (mut e, _) = h.mult_tern(r, q - 1);
    e.add(&m);
    e.mod_mask(q - 1);
    e
}

fn decrypt_poly(e: IntPoly, private: &PrivateKey, modulus: u16) -> IntPoly {
    let (mut d, _) = if private.get_t().is_product() {
        e.mult_prod(private.get_t().get_poly_prod(), modulus - 1)
    } else {
        e.mult_tern(private.get_t().get_poly_tern(), modulus - 1)
    };
    d.mod_mask(modulus - 1);
    d.mult_fac(3);
    d.add(&e);
    d.mod_center(modulus);
    d.mod3();
    for i in 0..d.get_coeffs().len() {
        if d.get_coeffs()[i] == 2 {
            d.set_coeff(i, -1)
        }
    }
    d
}

fn gen_key_pair(seed: &str, params: &EncParams) -> KeyPair {
    let seed_u8 = seed.as_bytes();
    let rng = rng_igf2();
    let mut rand_ctx = init_det(&rng, seed_u8).unwrap();

    ntru::generate_key_pair(params, &mut rand_ctx).unwrap()
}

fn sha1(input: &[u8]) -> [u8; 20] {
    let mut hasher = sha1::Sha1::new();
    hasher.update(input);

    let mut digest = [0u8; 20];
    digest.copy_from_slice(&hasher.finalize());
    digest
}

#[test]
fn it_keygen() {
    let param_arr = all_param_sets();

    for params in &param_arr {
        let rng = rng_default();
        let mut rand_ctx = init(&rng).unwrap();
        let mut kp = ntru::generate_key_pair(params, &mut rand_ctx).unwrap();

        // Encrypt a random message
        let m = TernPoly::rand(
            params.get_n(),
            params.get_n() / 3,
            params.get_n() / 3,
            &mut rand_ctx,
        )
        .unwrap();
        let m_int = m.to_int_poly();

        let r = TernPoly::rand(
            params.get_n(),
            params.get_n() / 3,
            params.get_n() / 3,
            &mut rand_ctx,
        )
        .unwrap();

        let e = encrypt_poly(m_int.clone(), &r, kp.get_public().get_h(), params.get_q());

        // Decrypt and verify
        let c = decrypt_poly(e, kp.get_private(), params.get_q());
        assert_eq!(m_int, c);

        // Test deterministic key generation
        kp = gen_key_pair("my test password", params);
        let rng = rng_igf2();
        let mut rand_ctx2 = init_det(&rng, b"my test password").unwrap();
        let kp2 = ntru::generate_key_pair(params, &mut rand_ctx2).unwrap();

        assert_eq!(kp, kp2);
    }
}

// Round trips with a non-deterministic context, one public key and several.
fn test_encr_decr_nondet(params: &EncParams) {
    let rng = rng_default();
    let mut rand_ctx = init(&rng).unwrap();
    let kp = ntru::generate_key_pair(params, &mut rand_ctx).unwrap();

    let num_pub_keys: usize = 3;

    // A key pair with multiple public keys, generated in one call
    let (priv_multi1, pub_multi1) =
        ntru::generate_multiple_key_pairs(params, &mut rand_ctx, num_pub_keys).unwrap();

    // A key pair with multiple public keys, generated one at a time
    let kp_multi2 = ntru::generate_key_pair(params, &mut rand_ctx).unwrap();
    let mut pub_multi2 = Vec::with_capacity(num_pub_keys);
    for _ in 0..num_pub_keys {
        pub_multi2
            .push(ntru::generate_public(params, kp_multi2.get_private(), &mut rand_ctx).unwrap());
    }

    let max_len = params.max_msg_len();
    let plain = ntru::rand::generate(max_len as u16, &mut rand_ctx).unwrap();

    let m = max_len as usize;
    let mut lens = vec![0usize, 1, 2, m / 3, m / 2, m - 1, m];
    lens.dedup();
    for plain_len in lens {
        // Single public key
        let encrypted =
            ntru::encrypt(&plain[0..plain_len], kp.get_public(), params, &mut rand_ctx).unwrap();
        let decrypted = ntru::decrypt(&encrypted, &kp, params).unwrap();

        assert_eq!(&plain[0..plain_len], &decrypted[..]);

        // Multiple public keys
        for i in 0..num_pub_keys {
            // priv_multi1 with pub_multi1
            let encrypted =
                ntru::encrypt(&plain[0..plain_len], &pub_multi1[i], params, &mut rand_ctx)
                    .unwrap();

            let kp_decrypt1 = KeyPair::new(priv_multi1.clone(), pub_multi1[i].clone());
            let decrypted = ntru::decrypt(&encrypted, &kp_decrypt1, params).unwrap();
            assert_eq!(&plain[0..plain_len], &decrypted[..]);

            // kp_multi2 with pub_multi2
            let public = if i == 0 {
                kp_multi2.get_public()
            } else {
                &pub_multi2[i - 1]
            };
            let encrypted =
                ntru::encrypt(&plain[0..plain_len], public, params, &mut rand_ctx).unwrap();

            let kp_decrypt2 = KeyPair::new(kp_multi2.get_private().clone(), public.clone());
            let decrypted = ntru::decrypt(&encrypted, &kp_decrypt2, params).unwrap();
            assert_eq!(&plain[0..plain_len], &decrypted[..]);
        }
    }
}

// Round trips and reproducibility with a deterministic context.
fn test_encr_decr_det(params: &EncParams) {
    let kp = gen_key_pair("seed value for key generation", params);
    let pub_arr = kp.get_public().export(params);

    let pub2 = PublicKey::import(&pub_arr);
    assert_eq!(kp.get_public().get_h(), pub2.get_h());

    let max_len = params.max_msg_len();
    let rng_plaintext = rng_igf2();
    let plain_seed = b"seed value for plaintext";

    let mut rand_ctx_plaintext = init_det(&rng_plaintext, plain_seed).unwrap();
    let plain = ntru::rand::generate(max_len as u16, &mut rand_ctx_plaintext).unwrap();
    let plain2 = plain.clone();

    let seed = b"seed value";
    let seed2 = b"seed value";

    let rng = rng_igf2();
    let mut rand_ctx = init_det(&rng, seed).unwrap();
    let rng2 = rng_igf2();
    let mut rand_ctx2 = init_det(&rng2, seed2).unwrap();

    let m = max_len as usize;
    let mut lens = vec![0usize, 1, 2, m / 3, m / 2, m - 1, m];
    lens.dedup();
    for plain_len in lens {
        let encrypted =
            ntru::encrypt(&plain[0..plain_len], kp.get_public(), params, &mut rand_ctx).unwrap();
        let encrypted2 =
            ntru::encrypt(&plain2[0..plain_len], &pub2, params, &mut rand_ctx2).unwrap();

        assert_eq!(&encrypted[..], &encrypted2[..]);

        let decrypted = ntru::decrypt(&encrypted, &kp, params).unwrap();
        assert_eq!(&plain[0..plain_len], &decrypted[..]);
    }
}

// Every message length round-trips, checked exhaustively for one set.
#[test]
fn it_encr_decr_all_lengths() {
    let params = ntru::encparams::ees401ep1();
    let kp = gen_key_pair("seed value for key generation", &params);
    let rng = rng_igf2();
    let mut rand_ctx = init_det(&rng, b"seed value").unwrap();
    let mut plain_ctx = init_det(&rng, b"seed value for plaintext").unwrap();
    let max_len = params.max_msg_len() as usize;
    let plain = ntru::rand::generate(max_len as u16, &mut plain_ctx).unwrap();

    for plain_len in 0..=max_len {
        let encrypted =
            ntru::encrypt(&plain[0..plain_len], kp.get_public(), &params, &mut rand_ctx)
                .unwrap();
        let decrypted = ntru::decrypt(&encrypted, &kp, &params).unwrap();
        assert_eq!(&plain[0..plain_len], &decrypted[..]);
    }
}

#[test]
fn it_encr_decr() {
    let param_arr = all_param_sets();

    for params in param_arr.iter() {
        test_encr_decr_nondet(params);
        test_encr_decr_det(params);
    }
}

// A fixed deterministic seed reproduces a fixed ciphertext digest.
#[test]
fn it_interop_vector() {
    let params = ntru::encparams::ees401ep1();
    let kp = gen_key_pair("seed value for key generation", &params);

    let rng = rng_igf2();
    let mut rand_ctx = init_det(&rng, b"seed value").unwrap();
    let msg = b"interoperability test vector";
    let encrypted = ntru::encrypt(msg, kp.get_public(), &params, &mut rand_ctx).unwrap();
    let digest = sha1(&encrypted);

    let digest_expected: [u8; 20] = [
        0x38, 0x0f, 0xe6, 0x15, 0x40, 0xd0, 0x72, 0xd6, 0x12, 0x81, 0xb6, 0xec, 0x2d, 0x5c, 0x32, 0x8c, 0x14, 0xa5, 0x3f, 0xd0,
    ];
    assert_eq!(digest, digest_expected);

    let decrypted = ntru::decrypt(&encrypted, &kp, &params).unwrap();
    assert_eq!(&msg[..], &decrypted[..]);
}

// A shared private key decrypts under any of its paired public keys; a
// mismatched public key fails the padding check.
#[test]
fn it_multi_key_isolation() {
    let params = ntru::encparams::ees401ep2();
    let rng = rng_default();
    let mut rand_ctx = init(&rng).unwrap();

    let (private, publics) =
        ntru::generate_multiple_key_pairs(&params, &mut rand_ctx, 2).unwrap();
    let other_kp = ntru::generate_key_pair(&params, &mut rand_ctx).unwrap();

    let msg = b"isolation";
    for public in publics.iter() {
        let encrypted = ntru::encrypt(msg, public, &params, &mut rand_ctx).unwrap();
        let kp = KeyPair::new(private.clone(), public.clone());
        let decrypted = ntru::decrypt(&encrypted, &kp, &params).unwrap();
        assert_eq!(&msg[..], &decrypted[..]);

        // Decrypting with a mismatched public key must fail the padding
        // check, never silently return wrong plaintext.
        let wrong_kp = KeyPair::new(private.clone(), other_kp.get_public().clone());
        assert!(ntru::decrypt(&encrypted, &wrong_kp, &params).is_err());
    }
}
