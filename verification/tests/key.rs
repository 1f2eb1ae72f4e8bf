//! Key codec and catalog lookup tests.

use ntru::encparams::{all_param_sets, ees1087ep2, ees439ep1};
use ntru::rand::{init, rng_default};
use ntru::types::{IntPoly, PrivPoly, PrivateKey, PublicKey};

fn ntru_priv_to_int(a: &PrivPoly, modulus: u16) -> IntPoly {
    if a.is_product() {
        a.get_poly_prod().to_int_poly(modulus)
    } else {
        a.get_poly_tern().to_int_poly()
    }
}

#[test]
fn it_export_import() {
    let param_arr = [ees439ep1(), ees1087ep2()];

    for params in &param_arr {
        let rng = rng_default();
        let mut rand_ctx = init(&rng).unwrap();
        let kp = ntru::generate_key_pair(params, &mut rand_ctx).unwrap();

        // Test public key
        let pub_arr = kp.get_public().export(params);
        let imp_pub = PublicKey::import(&pub_arr);
        assert_eq!(kp.get_public().get_h(), imp_pub.get_h());

        // Test private key
        let priv_arr = kp.get_private().export(params);
        let imp_priv = PrivateKey::import(&priv_arr);

        let t_int1 = ntru_priv_to_int(imp_priv.get_t(), params.get_q());
        let t_int2 = ntru_priv_to_int(kp.get_private().get_t(), params.get_q());

        assert_eq!(t_int1, t_int2);
    }
}

#[test]
fn it_params_from_key() {
    let param_arr = all_param_sets();

    for params in &param_arr {
        let rng = rng_default();
        let mut rand_ctx = init(&rng).unwrap();

        let kp = ntru::generate_key_pair(params, &mut rand_ctx).unwrap();

        let params2 = kp.get_private().get_params().unwrap();
        assert_eq!(params, &params2);
    }

    for (i, params1) in param_arr.iter().enumerate() {
        for (j, params2) in param_arr.iter().enumerate() {
            if params1 == params2 {
                assert_eq!(i, j);
            } else {
                assert!(i != j);
            }
        }
    }
}
