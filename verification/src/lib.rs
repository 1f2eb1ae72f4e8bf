//! NTRU public-key encryption over the polynomial ring Z_q[x]/(x^N - 1):
//! key generation, encryption and decryption with SVES-style padding,
//! selectable across named parameter sets.

pub mod bitpack;
pub mod codec;
pub mod digest;
pub mod encparams;
mod igf;
pub mod laws;
pub mod rand;
pub mod sves;
pub mod types;

use vstd::prelude::*;
use crate::encparams::{check_params, spec_enc_len, spec_max_msg_len, EncParams};
use crate::rand::RandContext;
use crate::sves::{check_pub_key, priv_key_matches, pub_key_matches};
use crate::types::{
    invert_ok, priv_deg, tern_conv_at, Error, IntPoly, KeyPair, PrivPoly, PrivateKey, ProdPoly,
    PublicKey, TernPoly,
};

verus! {

/// The sampled private polynomial has the exact weights the parameter set
/// prescribes.
pub open spec fn priv_weights_ok(t: &PrivPoly, params: &EncParams) -> bool {
    match t {
        PrivPoly::Ternary(tp) => tp.ones@.len() == params.df1 as int && tp.neg_ones@.len()
            == params.df1 as int,
        PrivPoly::Product(pp) => {
            &&& pp.f1.ones@.len() == params.df1 as int && pp.f1.neg_ones@.len()
                == params.df1 as int
            &&& pp.f2.ones@.len() == params.df2 as int && pp.f2.neg_ones@.len()
                == params.df2 as int
            &&& pp.f3.ones@.len() == params.df3 as int && pp.f3.neg_ones@.len()
                == params.df3 as int
        },
    }
}

/// The public polynomial `h` is `3*g*fq mod q` for the given inverse `fq`
/// and a sampled `g` of weight `dg`.
pub open spec fn public_from(h: Seq<int>, fq: Seq<int>, g: TernPoly, params: &EncParams) -> bool {
    &&& g.wf()
    &&& g.n == params.n
    &&& g.ones@.len() == params.dg as int
    &&& g.neg_ones@.len() == params.dg as int
    &&& forall|k: int|
        0 <= k < params.n as int ==> h[k] == (3 * (#[trigger] tern_conv_at(
            fq,
            g.ones@,
            g.neg_ones@,
            k,
        ) % (params.q as int))) % (params.q as int)
}

/// One shared certified inverse `fq` of the private polynomial pairs with
/// every public key in the family: each is `3*gs[i]*fq mod q` for its own
/// sampled `gs[i]`.
pub open spec fn multi_pairing_ok(
    t: &PrivPoly,
    pubs: Seq<PublicKey>,
    fq: Seq<int>,
    gs: Seq<TernPoly>,
    params: &EncParams,
) -> bool {
    &&& invert_ok(t, fq, params.q as int)
    &&& fq.len() == params.n as int
    &&& gs.len() == pubs.len()
    &&& forall|i: int|
        0 <= i < pubs.len() ==> public_from(#[trigger] pubs[i].h@, fq, gs[i], params)
}

/// A generated key pair is well formed and internally consistent: the
/// private polynomial has the prescribed form and weights and a certified
/// inverse `fq`, and the public polynomial is `3*g*fq mod q` for a sampled
/// `g`.
pub open spec fn keypair_ok(kp: &KeyPair, params: &EncParams) -> bool {
    &&& priv_key_matches(&kp.private, params)
    &&& pub_key_matches(&kp.public, params)
    &&& kp.private.t.is_product() == (params.prod_flag == 1)
    &&& priv_weights_ok(&kp.private.t, params)
    &&& exists|fq: Seq<int>, g: TernPoly|
        {
            &&& invert_ok(&kp.private.t, fq, params.q as int)
            &&& fq.len() == params.n as int
            &&& public_from(kp.public.h@, fq, g, params)
        }
}

/// Sample a private polynomial and certify its inverse, resampling on
/// failure.
fn sample_private(params: &EncParams, rand_ctx: &mut RandContext) -> (r: Result<
    (PrivPoly, IntPoly),
    Error,
>)
    requires
        old(rand_ctx).wf(),
        params.wf(),
    ensures
        final(rand_ctx).wf(),
        final(rand_ctx).rand_gen == old(rand_ctx).rand_gen,
        final(rand_ctx).seed@ == old(rand_ctx).seed@,
        r is Ok ==> {
            &&& (r->Ok_0).0.wf()
            &&& priv_deg(&(r->Ok_0).0) == params.n as int
            &&& (r->Ok_0).0.is_product() == (params.prod_flag == 1)
            &&& priv_weights_ok(&(r->Ok_0).0, params)
            &&& (r->Ok_0).1@.len() == params.n as int
            &&& invert_ok(&(r->Ok_0).0, (r->Ok_0).1@, params.q as int)
        },
        r is Err ==> r->Err_0 == Error::Prng,
{
    let mask: u16 = params.q - 1;
    let mut attempts: u32 = 0;
    while attempts < 100
        invariant
            rand_ctx.wf(),
            rand_ctx.rand_gen == old(rand_ctx).rand_gen,
            rand_ctx.seed@ == old(rand_ctx).seed@,
            params.wf(),
            mask == params.q - 1,
        decreases 100 - attempts,
    {
        attempts += 1;
        let t: PrivPoly = if params.prod_flag == 1 {
            match ProdPoly::rand(
                params.n,
                params.df1,
                params.df2,
                params.df3,
                params.df3,
                rand_ctx,
            ) {
                Some(p) => PrivPoly::Product(p),
                None => {
                    return Err(Error::Prng);
                },
            }
        } else {
            match TernPoly::rand(params.n, params.df1, params.df1, rand_ctx) {
                Some(p) => PrivPoly::Ternary(p),
                None => {
                    return Err(Error::Prng);
                },
            }
        };
        let (fq, invertible) = t.invert(mask);
        if invertible {
            return Ok((t, fq));
        }
    }
    Err(Error::Prng)
}

/// Sample `g` and derive the public polynomial `h = 3*g*fq mod q`.
fn derive_public(params: &EncParams, fq: &IntPoly, rand_ctx: &mut RandContext) -> (r: Result<
    PublicKey,
    Error,
>)
    requires
        old(rand_ctx).wf(),
        params.wf(),
        fq@.len() == params.n as int,
    ensures
        final(rand_ctx).wf(),
        final(rand_ctx).rand_gen == old(rand_ctx).rand_gen,
        final(rand_ctx).seed@ == old(rand_ctx).seed@,
        r is Ok ==> {
            &&& pub_key_matches(&(r->Ok_0), params)
            &&& exists|g: TernPoly| public_from((r->Ok_0).h@, fq@, g, params)
        },
        r is Err ==> r->Err_0 == Error::Prng,
{
    let mask: u16 = params.q - 1;
    let g = match TernPoly::rand(params.n, params.dg, params.dg, rand_ctx) {
        Some(g) => g,
        None => {
            return Err(Error::Prng);
        },
    };
    let (mut h, ok) = fq.mult_tern(&g, mask);
    assert(ok);
    let ghost h1 = h@;
    proof {
        assert forall|k: int| 0 <= k < h@.len() implies 0 <= #[trigger] h@[k] < params.q by {
            vstd::arithmetic::div_mod::lemma_mod_bound(
                tern_conv_at(fq@, g.ones@, g.neg_ones@, k),
                params.q as int,
            );
        }
        assert(forall|k: int| 0 <= k < h@.len() ==> -0x8000 <= #[trigger] (h@[k] * 3) <= 0x7FFF);
    }
    h.mult_fac(3);
    let ghost h2 = h@;
    h.mod_mask(mask);
    proof {
        assert forall|k: int| 0 <= k < h@.len() implies 0 <= #[trigger] h@[k] < params.q by {
            vstd::arithmetic::div_mod::lemma_mod_bound(h2[k], params.q as int);
        }
    }
    let key = PublicKey { q: params.q, h };
    proof {
        assert forall|k: int| 0 <= k < params.n as int implies key.h@[k] == (3 * (
        #[trigger] tern_conv_at(fq@, g.ones@, g.neg_ones@, k) % (params.q as int))) % (
        params.q as int) by {
            assert(h1[k] == tern_conv_at(fq@, g.ones@, g.neg_ones@, k) % (params.q as int));
            assert(h2[k] == h1[k] * 3);
            assert(key.h@[k] == h2[k] % (params.q as int));
            assert(h1[k] * 3 == 3 * h1[k]);
        }
        assert(public_from(key.h@, fq@, g, params));
    }
    Ok(key)
}

/// Generate an NTRU encryption key pair.  With a deterministic random
/// context the key pair is a function of the seed.
pub fn generate_key_pair(params: &EncParams, rand_context: &mut RandContext) -> (r: Result<
    KeyPair,
    Error,
>)
    requires
        old(rand_context).wf(),
    ensures
        final(rand_context).wf(),
        final(rand_context).rand_gen == old(rand_context).rand_gen,
        final(rand_context).seed@ == old(rand_context).seed@,
        r == Result::<KeyPair, Error>::Err(Error::InvalidParam) <==> !params.wf(),
        params.wf() && r is Err ==> r->Err_0 == Error::Prng,
        r is Ok ==> params.wf() && keypair_ok(&r->Ok_0, params),
{
    if !check_params(params) {
        return Err(Error::InvalidParam);
    }
    let (t, fq) = match sample_private(params, rand_context) {
        Ok(x) => x,
        Err(_) => {
            return Err(Error::Prng);
        },
    };
    let public = match derive_public(params, &fq, rand_context) {
        Ok(p) => p,
        Err(_) => {
            return Err(Error::Prng);
        },
    };
    let kp = KeyPair { private: PrivateKey { q: params.q, t }, public };
    proof {
        assert(invert_ok(&kp.private.t, fq@, params.q as int));
    }
    Ok(kp)
}

/// Generate one private key paired with `num_pub` public keys.  The private
/// key decrypts a message encrypted for any of the public keys.
pub fn generate_multiple_key_pairs(
    params: &EncParams,
    rand_context: &mut RandContext,
    num_pub: usize,
) -> (r: Result<(PrivateKey, Vec<PublicKey>), Error>)
    requires
        old(rand_context).wf(),
    ensures
        final(rand_context).wf(),
        final(rand_context).rand_gen == old(rand_context).rand_gen,
        final(rand_context).seed@ == old(rand_context).seed@,
        r == Result::<(PrivateKey, Vec<PublicKey>), Error>::Err(Error::InvalidParam)
            <==> !params.wf(),
        params.wf() && r is Err ==> r->Err_0 == Error::Prng,
        r is Ok ==> {
            &&& priv_key_matches(&(r->Ok_0).0, params)
            &&& (r->Ok_0).0.t.is_product() == (params.prod_flag == 1)
            &&& priv_weights_ok(&(r->Ok_0).0.t, params)
            &&& (r->Ok_0).1@.len() == num_pub as int
            &&& forall|i: int|
                0 <= i < num_pub as int ==> pub_key_matches(&(r->Ok_0).1@[i], params)
            &&& exists|fq: Seq<int>, gs: Seq<TernPoly>|
                multi_pairing_ok(&(r->Ok_0).0.t, (r->Ok_0).1@, fq, gs, params)
        },
{
    if !check_params(params) {
        return Err(Error::InvalidParam);
    }
    let (t, fq) = match sample_private(params, rand_context) {
        Ok(x) => x,
        Err(_) => {
            return Err(Error::Prng);
        },
    };
    let mut public: Vec<PublicKey> = Vec::new();
    let ghost mut gs: Seq<TernPoly> = Seq::empty();
    let mut i: usize = 0;
    while i < num_pub
        invariant
            rand_context.wf(),
            rand_context.rand_gen == old(rand_context).rand_gen,
            rand_context.seed@ == old(rand_context).seed@,
            params.wf(),
            fq@.len() == params.n as int,
            i <= num_pub,
            public@.len() == i,
            gs.len() == i,
            forall|k: int| 0 <= k < i ==> pub_key_matches(&public@[k], params),
            forall|k: int|
                0 <= k < i ==> public_from(#[trigger] public@[k].h@, fq@, gs[k], params),
        decreases num_pub - i,
    {
        let p = match derive_public(params, &fq, rand_context) {
            Ok(p) => p,
            Err(_) => {
                return Err(Error::Prng);
            },
        };
        let ghost pubs0 = public@;
        public.push(p);
        proof {
            let gw = choose|g: TernPoly| public_from(p.h@, fq@, g, params);
            gs = gs.push(gw);
            assert forall|k: int| 0 <= k < public@.len() implies public_from(
                #[trigger] public@[k].h@,
                fq@,
                gs[k],
                params,
            ) by {
                if k < pubs0.len() {
                    assert(public@[k] == pubs0[k]);
                } else {
                    assert(public@[k] == p && gs[k] == gw);
                }
            }
            assert forall|k: int| 0 <= k < public@.len() implies pub_key_matches(
                &public@[k],
                params,
            ) by {
                if k < pubs0.len() {
                    assert(public@[k] == pubs0[k]);
                } else {
                    assert(public@[k] == p);
                }
            }
        }
        i += 1;
    }
    let r = (PrivateKey { q: params.q, t }, public);
    proof {
        assert(multi_pairing_ok(&r.0.t, r.1@, fq@, gs, params));
    }
    Ok(r)
}

/// Generate a new public key for an existing private key; it can be used
/// interchangeably with the key's other public keys.
pub fn generate_public(
    params: &EncParams,
    private: &PrivateKey,
    rand_context: &mut RandContext,
) -> (r: Result<PublicKey, Error>)
    requires
        old(rand_context).wf(),
        private.t.wf(),
    ensures
        final(rand_context).wf(),
        final(rand_context).rand_gen == old(rand_context).rand_gen,
        final(rand_context).seed@ == old(rand_context).seed@,
        r == Result::<PublicKey, Error>::Err(Error::InvalidParam) <==> !params.wf(),
        params.wf() && (private.q != params.q || priv_deg(&private.t) != params.n as int) ==> r
            == Result::<PublicKey, Error>::Err(Error::InvalidKey),
        r is Ok ==> params.wf() && pub_key_matches(&r->Ok_0, params),
        r is Ok ==> exists|fq: Seq<int>, g: TernPoly|
            {
                &&& invert_ok(&private.t, fq, params.q as int)
                &&& fq.len() == params.n as int
                &&& public_from(r->Ok_0.h@, fq, g, params)
            },
{
    if !check_params(params) {
        return Err(Error::InvalidParam);
    }
    let deg: u16 = match &private.t {
        PrivPoly::Ternary(t) => t.n,
        PrivPoly::Product(p) => p.n,
    };
    proof {
        assert(deg as int == priv_deg(&private.t));
    }
    if private.q != params.q || deg != params.n {
        return Err(Error::InvalidKey);
    }
    let (fq, invertible) = private.t.invert(params.q - 1);
    if !invertible {
        return Err(Error::InvalidKey);
    }
    match derive_public(params, &fq, rand_context) {
        Ok(p) => Ok(p),
        Err(_) => Err(Error::Prng),
    }
}

/// Encrypt a message.  With a deterministic random context the ciphertext
/// is a function of the message, the key and the seed.
pub fn encrypt(
    msg: &[u8],
    public: &PublicKey,
    params: &EncParams,
    rand_ctx: &mut RandContext,
) -> (r: Result<Vec<u8>, Error>)
    requires
        old(rand_ctx).wf(),
    ensures
        final(rand_ctx).wf(),
        final(rand_ctx).rand_gen == old(rand_ctx).rand_gen,
        final(rand_ctx).seed@ == old(rand_ctx).seed@,
        r == Result::<Vec<u8>, Error>::Err(Error::InvalidParam) <==> !params.wf(),
        params.wf() ==> (r == Result::<Vec<u8>, Error>::Err(Error::InvalidKey)
            <==> !pub_key_matches(public, params)),
        params.wf() && pub_key_matches(public, params) ==> (r == Result::<Vec<u8>, Error>::Err(
            Error::MessageTooLong,
        ) <==> msg@.len() > spec_max_msg_len(params.n as int, params.db as int)),
        r is Ok ==> params.wf() && r->Ok_0@.len() == spec_enc_len(
            params.n as int,
            params.q as int,
        ),
        params.wf() && pub_key_matches(public, params) && msg@.len() <= spec_max_msg_len(
            params.n as int,
            params.db as int,
        ) && r is Err ==> r->Err_0 == Error::Prng,
{
    if !check_params(params) {
        return Err(Error::InvalidParam);
    }
    if !check_pub_key(public, params) {
        return Err(Error::InvalidKey);
    }
    if msg.len() > params.max_msg_len() as usize {
        return Err(Error::MessageTooLong);
    }
    crate::sves::encrypt_impl(msg, public, params, rand_ctx)
}

/// Decrypt a ciphertext with a key pair; the public key must be the one the
/// message was encrypted for, or the padding validation fails.
pub fn decrypt(enc: &[u8], kp: &KeyPair, params: &EncParams) -> (r: Result<Vec<u8>, Error>)
    requires
        kp.private.t.wf(),
    ensures
        r == Result::<Vec<u8>, Error>::Err(Error::InvalidParam) <==> !params.wf(),
        params.wf() ==> (r == Result::<Vec<u8>, Error>::Err(Error::InvalidKey) <==> !(
        priv_key_matches(&kp.private, params) && pub_key_matches(&kp.public, params))),
        params.wf() && priv_key_matches(&kp.private, params) && pub_key_matches(
            &kp.public,
            params,
        ) && enc@.len() != spec_enc_len(params.n as int, params.q as int) ==> r == Result::<
            Vec<u8>,
            Error,
        >::Err(Error::InvalidEncoding),
        r is Ok ==> params.wf() && r->Ok_0@.len() <= spec_max_msg_len(
            params.n as int,
            params.db as int,
        ),
        r is Err ==> (r->Err_0 == Error::InvalidParam || r->Err_0 == Error::InvalidKey
            || r->Err_0 == Error::Md0Violation || r->Err_0 == Error::NoZeroPad || r->Err_0
            == Error::InvalidEncoding || r->Err_0 == Error::InvalidMaxLength || r->Err_0
            == Error::Prng),
        params.wf() && priv_key_matches(&kp.private, params) && pub_key_matches(
            &kp.public,
            params,
        ) && enc@.len() == spec_enc_len(params.n as int, params.q as int) && !crate::sves::dm0_ok(
            crate::sves::decrypt_candidate(enc@, &kp.private.t, params),
            params,
        ) ==> r == Result::<Vec<u8>, Error>::Err(Error::Md0Violation),
{
    if !check_params(params) {
        return Err(Error::InvalidParam);
    }
    let deg: u16 = match &kp.private.t {
        PrivPoly::Ternary(t) => t.n,
        PrivPoly::Product(p) => p.n,
    };
    proof {
        assert(deg as int == priv_deg(&kp.private.t));
    }
    if kp.private.q != params.q || deg != params.n || !check_pub_key(&kp.public, params) {
        return Err(Error::InvalidKey);
    }
    let need = params.enc_len() as usize;
    if enc.len() != need {
        return Err(Error::InvalidEncoding);
    }
    crate::sves::decrypt_impl(enc, kp, params)
}

} // verus!
