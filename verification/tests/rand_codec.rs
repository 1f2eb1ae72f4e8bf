//! Randomness-backend determinism, digest plumbing, codec edge cases and
//! error variants.

use sha1::Digest as Sha1Digest;
use sha2::Digest as Sha2Digest;

use ntru::encparams::{ees401ep1, ees401ep2, ees443ep1, DigestKind};
use ntru::rand::{generate, init, init_det, rng_default, rng_igf2};
use ntru::types::{Error, IntPoly, KeyPair, TernPoly};

// Two deterministic contexts with the same seed yield the same stream; a
// different seed yields a different stream.
#[test]
fn det_streams_equal_for_equal_seeds() {
    let rng = rng_igf2();
    let mut c1 = init_det(&rng, b"stream seed").unwrap();
    let mut c2 = init_det(&rng, b"stream seed").unwrap();
    let a = generate(100, &mut c1).unwrap();
    let b = generate(100, &mut c2).unwrap();
    assert_eq!(a, b);

    // Split reads see the same stream as one long read.
    let mut c3 = init_det(&rng, b"stream seed").unwrap();
    let mut c = generate(40, &mut c3).unwrap();
    c.extend(generate(60, &mut c3).unwrap());
    assert_eq!(a, c);

    let mut c4 = init_det(&rng, b"another seed").unwrap();
    let d = generate(100, &mut c4).unwrap();
    assert!(a != d);
}

// The deterministic stream is the SHA-256 digest of seed and block counter,
// checked against an independent computation.
#[test]
fn det_stream_matches_direct_digest() {
    let rng = rng_igf2();
    let seed = b"abc";
    let mut ctx = init_det(&rng, seed).unwrap();
    let got = generate(32, &mut ctx).unwrap();

    let mut input = seed.to_vec();
    input.extend_from_slice(&[0, 0, 0, 0]);
    let expected = sha2::Sha256::digest(&input);
    assert_eq!(&got[..], &expected[..]);
}

// The digest dispatch returns real digests, checked against the crates
// directly; its output never echoes the input.
#[test]
fn digest_dispatch_matches_crates() {
    let input = b"abc".to_vec();
    let d1 = ntru::digest::hash(DigestKind::Sha1, &input);
    let d2 = ntru::digest::hash(DigestKind::Sha256, &input);
    assert_eq!(&d1[..], &sha1::Sha1::digest(b"abc")[..]);
    assert_eq!(&d2[..], &sha2::Sha256::digest(b"abc")[..]);
    assert!(d1 != input);
    assert!(d2 != input);
}

// Two operating-system draws of 32 bytes differ.
#[test]
fn os_entropy_draws_differ() {
    let rng = rng_default();
    let mut ctx = init(&rng).unwrap();
    let a = generate(32, &mut ctx).unwrap();
    let b = generate(32, &mut ctx).unwrap();
    assert_eq!(a.len(), 32);
    assert!(a != b);
}

// Derived length formulas for a known parameter set.
#[test]
fn derived_lengths_ees401ep1() {
    let params = ees401ep1();
    assert_eq!(params.get_n(), 401);
    assert_eq!(params.get_q(), 2048);
    assert_eq!(params.get_db(), 112);
    assert_eq!(params.max_msg_len(), 60);
    assert_eq!(params.enc_len(), 552);
    assert_eq!(params.public_len(), 556);
    // Ternary form: a five-byte header and one block of 2*113 indices at
    // log2(400) + 1 = 9 bits each.
    assert_eq!(params.private_len(), 5 + 4 + (9 * 2 * 113 + 7) / 8);
    assert_eq!(params.get_name(), "EES401EP1");
}

// Codec round trip on a small hand-built polynomial.
#[test]
fn poly_codec_roundtrip_handmade() {
    let params = ees401ep1();
    let mut coeffs = vec![0i16; 401];
    for i in 0..401 {
        coeffs[i] = ((i * 37 + 11) % 2048) as i16;
    }
    let p1 = IntPoly::new(&coeffs);
    let a = p1.to_arr(&params);
    let p2 = IntPoly::from_arr(&a, 401, 2048);
    assert_eq!(p1, p2);
}

// Error variants of the top-level calls.
#[test]
fn error_variants() {
    let params = ees401ep1();
    let rng = rng_igf2();
    let mut ctx = init_det(&rng, b"error variant seed").unwrap();
    let kp = ntru::generate_key_pair(&params, &mut ctx).unwrap();

    // MessageTooLong: one byte over the maximum.
    let long_msg = vec![0u8; params.max_msg_len() as usize + 1];
    assert_eq!(
        ntru::encrypt(&long_msg, kp.get_public(), &params, &mut ctx),
        Err(Error::MessageTooLong)
    );

    // InvalidParam: a corrupted parameter set.
    let mut bad = params;
    bad.q = 2047;
    assert_eq!(
        ntru::encrypt(b"x", kp.get_public(), &bad, &mut ctx),
        Err(Error::InvalidParam)
    );

    // InvalidKey: a key for a parameter set of a different degree.
    let other = ees443ep1();
    let mut ctx2 = init_det(&rng, b"other seed").unwrap();
    let kp2 = ntru::generate_key_pair(&other, &mut ctx2).unwrap();
    assert_eq!(
        ntru::decrypt(&[0u8; 552], &KeyPair::new(kp2.get_private().clone(), kp.get_public().clone()), &params),
        Err(Error::InvalidKey)
    );

    // InvalidEncoding: a ciphertext of the wrong length.
    assert_eq!(ntru::decrypt(&[0u8; 5], &kp, &params), Err(Error::InvalidEncoding));

    // Prng: a deterministic generator refused by plain init.
    assert_eq!(ntru::rand::init(&rng).err(), Some(Error::Prng));

    // UnknownParamSet: a key that matches no catalog entry.
    let weird = ntru::types::PrivateKey {
        q: 64,
        t: ntru::types::PrivPoly::new_with_tern_poly(TernPoly::new(17, &[1, 2], &[3, 4])),
    };
    assert_eq!(weird.get_params(), Err(Error::UnknownParamSet));
}

// The error descriptions are distinct and non-empty.
#[test]
fn error_descriptions() {
    let errs = [
        Error::OutOfMemory,
        Error::Prng,
        Error::MessageTooLong,
        Error::InvalidMaxLength,
        Error::Md0Violation,
        Error::NoZeroPad,
        Error::InvalidEncoding,
        Error::NullArgument,
        Error::UnknownParamSet,
        Error::InvalidParam,
        Error::InvalidKey,
    ];
    for (i, a) in errs.iter().enumerate() {
        assert!(!a.description().is_empty());
        for (j, b) in errs.iter().enumerate() {
            if i != j {
                assert!(a.description() != b.description());
            }
        }
    }
}

// Multiplication routines agree: the sparse ternary product equals the
// dense convolution with the same polynomial, for fixed values.
#[test]
fn mult_agreement_fixed() {
    let t = TernPoly::new(7, &[0, 2], &[5]);
    let a = IntPoly::new(&[3, 1, 4, 1, 5, 9, 2]);
    let (sparse, ok1) = a.mult_tern(&t, 31);
    assert!(ok1);
    let (dense, ok2) = a.mult_int(&t.to_int_poly(), 31);
    assert!(ok2);
    assert_eq!(sparse, dense);
}

// Private key codec round trip for both forms.
#[test]
fn priv_key_codec_roundtrip_forms() {
    for params in [ees401ep1(), ees401ep2()] {
        let rng = rng_igf2();
        let mut ctx = init_det(&rng, b"codec forms seed").unwrap();
        let kp = ntru::generate_key_pair(&params, &mut ctx).unwrap();
        let arr = kp.get_private().export(&params);
        assert_eq!(arr.len(), params.private_len() as usize);
        let back = ntru::types::PrivateKey::import(&arr);
        assert_eq!(&back, kp.get_private());
    }
}

// A tampered ciphertext fails a decrypt-side check; it never silently
// yields plaintext that passes the padding validation.
#[test]
fn tampered_ciphertext_fails() {
    let params = ees401ep1();
    let rng = rng_igf2();
    let mut ctx = init_det(&rng, b"tamper seed").unwrap();
    let kp = ntru::generate_key_pair(&params, &mut ctx).unwrap();
    let mut encrypted = ntru::encrypt(b"payload", kp.get_public(), &params, &mut ctx).unwrap();
    encrypted[10] ^= 0x40;
    assert!(ntru::decrypt(&encrypted, &kp, &params).is_err());
}

// Imports of streams that hold no key yield the empty keys.
#[test]
fn import_rejects_garbage() {
    let garbage = [7u8, 1, 2, 3];
    let pk = ntru::types::PublicKey::import(&garbage);
    assert_eq!(pk.get_q(), 0);
    assert_eq!(pk.get_h().get_coeffs().len(), 0);

    let sk = ntru::types::PrivateKey::import(&garbage);
    assert_eq!(sk.get_q(), 0);

    // A block whose index list repeats an index is not a well-formed
    // ternary polynomial and is rejected.
    let mut bad = vec![0u8, 17, 0, 64, 0]; // n = 17, q = 64, ternary
    bad.extend_from_slice(&[0, 2, 0, 0]); // two ones, no negative ones
    bad.extend_from_slice(&[0x21, 0x04]); // indices 1 and 1 at 5 bits each
    let sk2 = ntru::types::PrivateKey::import(&bad);
    assert_eq!(sk2.get_q(), 0);
}
