//! The DL group: the subgroup of order `q` of the integers modulo a safe prime
//! `p = 2q + 1`.
use crate::group::{check_spec, Element, Group, ParamsError, MAX_ATTEMPTS};
use crate::num::{
    be_bytes, be_nat, generate_safe_prime, half_of_predecessor, is_prime, lemma_be_bytes_injective,
    lemma_be_nat_of_bytes, mod_exp, mod_exp_spec, mod_mul, mod_mul_spec, mod_sub_spec, num_bits, rng,
    small, CryptoError, Num, MAX_NUM_BYTES,
};
use vstd::arithmetic::div_mod::{
    lemma_fundamental_div_mod, lemma_mod_twice, lemma_mul_mod_noop, lemma_small_mod,
};
use vstd::arithmetic::mul::{lemma_mul_is_associative, lemma_mul_is_commutative};
use vstd::arithmetic::power::{
    lemma1_pow, lemma_pow1, lemma_pow_adds, lemma_pow_mod_noop, lemma_pow_multiplies, pow,
};
use vstd::prelude::*;

verus! {

/// Public parameters of the DL group.
pub struct DlParams {
    pub q: Num,
    pub p: Num,
    pub g: Element,
    pub h: Element,
}

/// Whether `g` is a residue below `p` that lies in the subgroup of order `q`
/// modulo `p` and is not 1.
pub open spec fn is_generator_spec(g: nat, q: nat, p: nat) -> bool {
    g < p && mod_exp_spec(g, q, p) == 1 && g != 1
}

impl DlParams {
    /// The parameters describe a Chaum–Pedersen instance: both generators are
    /// minimal encodings, lie in the order-`q` subgroup, are not 1, and differ.
    pub open spec fn valid(&self) -> bool {
        &&& self.wf()
        &&& self.q.wf()
        &&& self.g@ == be_bytes(be_nat(self.g@))
        &&& self.h@ == be_bytes(be_nat(self.h@))
        &&& is_generator_spec(be_nat(self.g@), self.q@, self.p@)
        &&& is_generator_spec(be_nat(self.h@), self.q@, self.p@)
        &&& self.g@ != self.h@
    }

    /// A copy of these parameters.
    pub fn copy(&self) -> (r: DlParams)
        ensures
            r.q@ == self.q@ && r.p@ == self.p@ && r.g@ == self.g@ && r.h@ == self.h@,
            r.q.bytes@ == self.q.bytes@ && r.p.bytes@ == self.p.bytes@,
    {
        DlParams { q: self.q.copy(), p: self.p.copy(), g: self.g.copy(), h: self.h.copy() }
    }
}

impl Group for DlParams {
    open spec fn wf(&self) -> bool {
        &&& self.p.wf()
        &&& self.q.wf()
        &&& self.p.fits()
        &&& self.q.fits()
        &&& self.p@ > 1
        &&& self.q@ > 0
        &&& self.is_element(self.g@)
        &&& self.is_element(self.h@)
    }

    open spec fn is_element(&self, e: Seq<u8>) -> bool {
        e.len() <= MAX_NUM_BYTES && e == be_bytes(be_nat(e))
    }

    open spec fn decodes(&self, data: Seq<u8>) -> bool {
        data.len() <= MAX_NUM_BYTES
    }

    open spec fn order_spec(&self) -> nat {
        self.q@
    }

    open spec fn g_spec(&self) -> Seq<u8> {
        self.g@
    }

    open spec fn h_spec(&self) -> Seq<u8> {
        self.h@
    }

    open spec fn exp_spec(&self, base: Seq<u8>, s: nat) -> Seq<u8> {
        be_bytes(mod_exp_spec(be_nat(base), s, self.p@))
    }

    open spec fn compose_spec(&self, a: Seq<u8>, b: Seq<u8>) -> Seq<u8> {
        be_bytes(mod_mul_spec(be_nat(a), be_nat(b), self.p@))
    }

    open spec fn decode_spec(&self, data: Seq<u8>) -> Seq<u8> {
        be_bytes(be_nat(data))
    }

    fn order(&self) -> (r: &Num) {
        &self.q
    }

    fn g(&self) -> (r: &Element) {
        &self.g
    }

    fn h(&self) -> (r: &Element) {
        &self.h
    }

    fn exp(&self, base: &Element, s: &Num) -> (r: Result<Element, CryptoError>) {
        let b = Num { bytes: base.bytes.clone() };
        let n = mod_exp(&b, s, &self.p)?;
        Ok(Element { bytes: n.bytes })
    }

    fn compose(&self, a: &Element, b: &Element) -> (r: Result<Element, CryptoError>) {
        let x = Num { bytes: a.bytes.clone() };
        let y = Num { bytes: b.bytes.clone() };
        let n = mod_mul(&x, &y, &self.p)?;
        Ok(Element { bytes: n.bytes })
    }

    fn decode(&self, data: &[u8]) -> (r: Result<Element, CryptoError>) {
        let n = Num::decode(data)?;
        Ok(Element { bytes: n.bytes })
    }
}

/// Whether `g < p`, `g^q ≡ 1 (mod p)` and `g ≠ 1`: `g` generates the subgroup
/// of order `q` when `q` is prime.
pub fn is_generator(g: &Num, q: &Num, p: &Num) -> (r: Result<bool, CryptoError>)
    requires
        g.wf(),
        p@ > 0,
    ensures
        r matches Ok(b) ==> b == is_generator_spec(g@, q@, p@),
        r is Ok <==> g.fits() && q.fits() && p.fits(),
{
    let one = small(1);
    let reduced = mod_mul(g, &one, p)?;
    let e = mod_exp(g, q, p)?;
    proof {
        if g@ < p@ {
            lemma_small_mod(g@, p@);
        } else {
            vstd::arithmetic::div_mod::lemma_mod_bound(g@ as int, p@ as int);
        }
        assert(g@ * 1 == g@);
    }
    Ok(reduced.equals(g) && e.equals(&one) && !g.equals(&one))
}

/// Draws `x` below `p` until `x^2 mod p` generates the order-`q` subgroup.
fn find_generator(q: &Num, p: &Num) -> (r: Result<Num, CryptoError>)
    requires
        p@ > 0,
    ensures
        r matches Ok(y) ==> y.wf() && y.fits() && is_generator_spec(y@, q@, p@),
{
    let two = small(2);
    let mut attempt: u32 = 0;
    while attempt < MAX_ATTEMPTS
        decreases MAX_ATTEMPTS - attempt,
    {
        let x = rng(p)?;
        let y = mod_exp(&x, &two, p)?;
        if is_generator(&y, q, p)? {
            return Ok(y);
        }
        attempt = attempt + 1;
    }
    Err(CryptoError)
}

impl DlParams {
    /// Generates fresh parameters: a safe prime `p` of exactly `bit_length + 1`
    /// bits (drawn again while OpenSSL hands out a longer one), `q = (p - 1) / 2`
    /// of exactly `bit_length` bits, and two distinct generators of the
    /// order-`q` subgroup, each the square of a random residue.
    pub fn new(bit_length: i32) -> (r: Result<DlParams, CryptoError>)
        requires
            1 <= bit_length < i32::MAX,
        ensures
            r matches Ok(params) ==> {
                &&& params.valid()
                &&& is_prime(params.q@)
                &&& is_prime(params.p@)
                &&& params.p@ == 2 * params.q@ + 1
                &&& pow(2, bit_length as nat) <= params.p@ < pow(2, (bit_length + 1) as nat)
                &&& pow(2, (bit_length - 1) as nat) <= params.q@ < pow(2, bit_length as nat)
            },
    {
        let mut p = generate_safe_prime(bit_length + 1)?;
        let mut attempt: u32 = 0;
        while num_bits(&p) != (bit_length + 1) as u64
            invariant
                1 <= bit_length < i32::MAX,
                p.wf(),
                p.fits(),
                is_prime(p@),
                is_prime((p@ - 1) as nat / 2),
            decreases MAX_ATTEMPTS - attempt,
        {
            if attempt >= MAX_ATTEMPTS {
                return Err(CryptoError);
            }
            p = generate_safe_prime(bit_length + 1)?;
            attempt = attempt + 1;
        }
        proof {
            let b = bit_length as nat;
            assert(p@ % 2 != 0);
            lemma_pow_adds(2, (b - 1) as nat, 1);
            lemma_pow1(2);
            lemma_pow_adds(2, b, 1);
            assert(pow(2, b) == 2 * pow(2, (b - 1) as nat));
            assert(pow(2, b + 1) == 2 * pow(2, b));
            assert(((b + 1) - 1) as nat == b);
        }
        let q = half_of_predecessor(&p)?;
        let g = find_generator(&q, &p)?;
        let mut h = find_generator(&q, &p)?;
        let mut attempt: u32 = 0;
        while h.equals(&g)
            invariant
                p.wf(),
                q.wf(),
                p.fits(),
                q.fits(),
                p@ > 1,
                g.wf(),
                h.wf(),
                g.fits(),
                h.fits(),
                is_generator_spec(g@, q@, p@),
                is_generator_spec(h@, q@, p@),
            decreases MAX_ATTEMPTS - attempt,
        {
            if attempt >= MAX_ATTEMPTS {
                return Err(CryptoError);
            }
            h = find_generator(&q, &p)?;
            attempt = attempt + 1;
        }
        Ok(DlParams { q, p, g: Element { bytes: g.bytes }, h: Element { bytes: h.bytes } })
    }

    /// Parameters from a known modulus and generators; `q` is recomputed as
    /// `(p - 1) / 2`. Numbers too long for OpenSSL, a modulus below 3,
    /// generators that coincide and generators that leave the order-`q`
    /// subgroup are refused, in that order.
    pub fn with_params(p: Num, g: Num, h: Num) -> (r: Result<DlParams, ParamsError>)
        requires
            p.wf(),
            g.wf(),
            h.wf(),
        ensures
            r matches Ok(params) ==> {
                &&& params.valid()
                &&& params.p@ == p@
                &&& params.q@ == (p@ - 1) as nat / 2
                &&& be_nat(params.g@) == g@
                &&& be_nat(params.h@) == h@
            },
            r matches Err(ParamsError::Arithmetic) <==> !(p.fits() && g.fits() && h.fits()),
            r matches Err(ParamsError::ModulusTooSmall) <==> p.fits() && g.fits() && h.fits()
                && p@ < 3,
            r matches Err(ParamsError::EqualGenerators) <==> p.fits() && g.fits() && h.fits()
                && p@ >= 3 && g@ == h@,
            r matches Err(ParamsError::NotAGenerator) <==> p.fits() && g.fits() && h.fits()
                && p@ >= 3 && g@ != h@ && !(is_generator_spec(g@, (p@ - 1) as nat / 2, p@)
                && is_generator_spec(h@, (p@ - 1) as nat / 2, p@)),
    {
        if !(p.bytes.len() <= MAX_NUM_BYTES && g.bytes.len() <= MAX_NUM_BYTES && h.bytes.len()
            <= MAX_NUM_BYTES) {
            return Err(ParamsError::Arithmetic);
        }
        if p.bytes.len() == 0 {
            proof {
                assert(be_bytes(0) =~= Seq::<u8>::empty());
                lemma_be_bytes_injective(p@, 0);
            }
            return Err(ParamsError::ModulusTooSmall);
        }
        proof {
            if p@ == 0 {
                assert(be_bytes(0) =~= Seq::<u8>::empty());
            }
        }
        let q = match half_of_predecessor(&p) {
            Ok(q) => q,
            Err(_) => return Err(ParamsError::Arithmetic),
        };
        if q.bytes.len() == 0 {
            proof {
                assert(be_bytes(0) =~= Seq::<u8>::empty());
                lemma_be_bytes_injective(q@, 0);
            }
            return Err(ParamsError::ModulusTooSmall);
        }
        proof {
            if q@ == 0 {
                assert(be_bytes(0) =~= Seq::<u8>::empty());
            }
        }
        proof {
            lemma_be_nat_of_bytes(g@);
            lemma_be_nat_of_bytes(h@);
        }
        if g.equals(&h) {
            return Err(ParamsError::EqualGenerators);
        }
        match (is_generator(&g, &q, &p), is_generator(&h, &q, &p)) {
            (Ok(true), Ok(true)) => {},
            (Ok(_), Ok(_)) => return Err(ParamsError::NotAGenerator),
            _ => return Err(ParamsError::Arithmetic),
        }
        Ok(DlParams { q, p, g: Element { bytes: g.bytes }, h: Element { bytes: h.bytes } })
    }
}

/// One half of the verification equation for an honest prover: with
/// `G^q ≡ 1 (mod p)`, `y = G^x`, `r = G^k` and `s = (k - c·x) mod q`,
/// `G^s · y^c ≡ r (mod p)`.
proof fn lemma_exponent_identity(gv: nat, p: nat, q: nat, x: nat, k: nat, c: nat)
    requires
        p > 1,
        q > 0,
        k < q,
        mod_exp_spec(gv, q, p) == 1,
    ensures
        mod_mul_spec(
            mod_exp_spec(gv, mod_sub_spec(k, c * x, q), p),
            mod_exp_spec(mod_exp_spec(gv, x, p), c, p),
            p,
        ) == mod_exp_spec(gv, k, p),
{
    let gi = gv as int;
    let pi = p as int;
    let qi = q as int;
    let cx: nat = c * x;
    let s: nat = mod_sub_spec(k, cx, q);
    let d: int = (k - cx) / qi;
    lemma_fundamental_div_mod(k - cx, qi);
    assert(k - cx == qi * d + s);
    assert(qi * d < qi) by (nonlinear_arith)
        requires
            qi * d == k - cx - s,
            k < qi,
            cx >= 0,
            s >= 0,
    ;
    assert(d <= 0) by (nonlinear_arith)
        requires
            qi * d < qi,
            qi > 0,
    ;
    let t: nat = (-d) as nat;
    assert(s + cx == k + q * t) by (nonlinear_arith)
        requires
            k - cx == qi * d + s,
            t == -d,
            qi == q,
    ;
    // y^c = G^(x c) modulo p
    lemma_pow_mod_noop(pow(gi, x), c, pi);
    lemma_pow_multiplies(gi, x, c);
    assert(x * c == cx) by (nonlinear_arith)
        requires
            cx == c * x,
    ;
    assert(pow(pow(gi, x) % pi, c) % pi == pow(gi, cx as nat) % pi);
    // G^s · G^(x c) = G^(s + x c) = G^k · (G^q)^t
    lemma_mul_mod_noop(pow(gi, s), pow(gi, cx), pi);
    lemma_pow_adds(gi, s, cx);
    assert(pow(gi, s) * pow(gi, cx) == pow(gi, k + q * t));
    lemma_pow_adds(gi, k, q * t);
    lemma_pow_multiplies(gi, q, t);
    assert(pow(gi, k + q * t) == pow(gi, k) * pow(pow(gi, q), t));
    // (G^q)^t ≡ 1
    assert(pow(gi, q) % pi == 1);
    lemma_pow_mod_noop(pow(gi, q), t, pi);
    lemma1_pow(t);
    lemma_small_mod(1, p);
    assert(pow(pow(gi, q), t) % pi == 1);
    lemma_mul_mod_noop(pow(gi, k), pow(pow(gi, q), t), pi);
    lemma_mod_twice(pow(gi, k), pi);
    assert((pow(gi, k) * pow(pow(gi, q), t)) % pi == pow(gi, k) % pi);
    assert((pow(gi, s) % pi) * (pow(pow(gi, x) % pi, c) % pi) % pi == pow(gi, k) % pi);
}

/// Completeness: with valid parameters, a prover who knows `x` with
/// `y1 = g^x` and `y2 = h^x`, commits to a nonce `k < q` with `r1 = g^k`,
/// `r2 = h^k`, and answers the challenge `c` with `s = (k - c·x) mod q`,
/// always passes the verification equation.
pub proof fn lemma_dl_completeness(params: DlParams, x: nat, k: nat, c: nat)
    requires
        params.valid(),
        k < params.q@,
    ensures
        check_spec(
            params,
            params.exp_spec(params.g@, x),
            params.exp_spec(params.h@, x),
            params.exp_spec(params.g@, k),
            params.exp_spec(params.h@, k),
            c,
            mod_sub_spec(k, c * x, params.q@),
        ),
{
    let p = params.p@;
    let q = params.q@;
    let s = mod_sub_spec(k, c * x, q);
    let gv = be_nat(params.g@);
    let hv = be_nat(params.h@);
    lemma_exponent_identity(gv, p, q, x, k, c);
    lemma_exponent_identity(hv, p, q, x, k, c);
    lemma_be_nat_of_bytes(mod_exp_spec(gv, s, p));
    lemma_be_nat_of_bytes(mod_exp_spec(hv, s, p));
    lemma_be_nat_of_bytes(mod_exp_spec(gv, x, p));
    lemma_be_nat_of_bytes(mod_exp_spec(hv, x, p));
    lemma_be_nat_of_bytes(mod_exp_spec(mod_exp_spec(gv, x, p), c, p));
    lemma_be_nat_of_bytes(mod_exp_spec(mod_exp_spec(hv, x, p), c, p));
}

/// Encoding round trip: every DL element and scalar that the prover and the
/// verifier produce is a minimal big-endian encoding `be_bytes(v)`; decoding it
/// gives the same element back, and reading it as a number gives `v`.
pub proof fn lemma_dl_round_trip(params: DlParams, v: nat)
    ensures
        params.decode_spec(be_bytes(v)) == be_bytes(v),
        be_nat(be_bytes(v)) == v,
{
    lemma_be_nat_of_bytes(v);
}

/// With `G^q ≡ 1 (mod p)`, exponents of `G` count modulo `q`.
proof fn lemma_exponent_mod_order(gv: int, p: int, q: nat, e: nat)
    requires
        p > 1,
        q > 0,
        pow(gv, q) % p == 1,
    ensures
        pow(gv, e) % p == pow(gv, e % q) % p,
{
    let m: nat = e / q;
    let r: nat = e % q;
    lemma_fundamental_div_mod(e as int, q as int);
    assert(e == q * m + r);
    let big = pow(pow(gv, q), m);
    lemma_pow_adds(gv, q * m, r);
    lemma_pow_multiplies(gv, q, m);
    assert(pow(gv, e) == big * pow(gv, r));
    lemma_pow_mod_noop(pow(gv, q), m, p);
    lemma1_pow(m);
    lemma_small_mod(1, p as nat);
    assert(big % p == 1);
    vstd::arithmetic::div_mod::lemma_mul_mod_noop_left(big, pow(gv, r), p);
    assert((big * pow(gv, r)) % p == (1 * pow(gv, r)) % p);
    assert(1 * pow(gv, r) == pow(gv, r));
}

/// The order of `G` divides `q`: if also `G^t ≡ 1` for some `0 < t < q` with
/// `q` prime, then `G ≡ 1`.
proof fn lemma_order_descent(gv: int, p: int, q: nat, t: nat)
    requires
        p > 1,
        is_prime(q),
        0 < t < q,
        pow(gv, q) % p == 1,
        pow(gv, t) % p == 1,
    ensures
        gv % p == 1,
    decreases t,
{
    let m: nat = q / t;
    let r: nat = q % t;
    lemma_fundamental_div_mod(q as int, t as int);
    assert(q == t * m + r);
    lemma_pow_adds(gv, t * m, r);
    lemma_pow_multiplies(gv, t, m);
    lemma_pow_mod_noop(pow(gv, t), m, p);
    lemma1_pow(m);
    lemma_small_mod(1, p as nat);
    lemma_mul_mod_noop(pow(pow(gv, t), m), pow(gv, r), p);
    lemma_mod_twice(pow(gv, r), p);
    assert(pow(gv, r) % p == 1);
    if r == 0 {
        if t > 1 {
            assert(q % t != 0);
        }
        lemma_pow1(gv);
    } else {
        lemma_order_descent(gv, p, q, r);
    }
}

/// A factor `G^a` cancels on both sides of a congruence modulo `p`.
proof fn lemma_cancel_power(gv: int, p: int, q: nat, a: nat, x: int, y: int)
    requires
        p > 1,
        q > 0,
        pow(gv, q) % p == 1,
        (pow(gv, a) * x) % p == (pow(gv, a) * y) % p,
    ensures
        x % p == y % p,
{
    let ga = pow(gv, a);
    let b = pow(gv, ((q - 1) as nat) * a);
    lemma_pow_adds(gv, ((q - 1) as nat) * a, a);
    assert(((q - 1) as nat) * a + a == q * a) by (nonlinear_arith)
        requires
            q > 0,
    ;
    lemma_pow_multiplies(gv, q, a);
    lemma_pow_mod_noop(pow(gv, q), a, p);
    lemma1_pow(a);
    lemma_small_mod(1, p as nat);
    let u = b * ga;
    assert(u % p == 1);
    vstd::arithmetic::div_mod::lemma_mul_mod_noop_right(b, ga * x, p);
    vstd::arithmetic::div_mod::lemma_mul_mod_noop_right(b, ga * y, p);
    assert((b * (ga * x)) % p == (b * (ga * y)) % p);
    lemma_mul_is_associative(b, ga, x);
    lemma_mul_is_associative(b, ga, y);
    assert((u * x) % p == (u * y) % p);
    vstd::arithmetic::div_mod::lemma_mul_mod_noop_left(u, x, p);
    vstd::arithmetic::div_mod::lemma_mul_mod_noop_left(u, y, p);
    assert((u * x) % p == (1 * x) % p);
    assert((u * y) % p == (1 * y) % p);
    assert(1 * x == x);
    assert(1 * y == y);
}

/// For a `G` of prime order `q` (with `G < p`), `G^(c·d) ≢ 1` when neither `c`
/// nor `d` is a multiple of `q`.
proof fn lemma_no_small_power_is_one(gv: nat, p: nat, q: nat, c: nat, d: nat)
    requires
        p > 1,
        is_prime(q),
        gv < p,
        gv != 1,
        pow(gv as int, q) % (p as int) == 1,
        c % q != 0,
        d % q != 0,
    ensures
        pow(gv as int, d * c) % (p as int) != 1,
{
    let gi = gv as int;
    let pi = p as int;
    if pow(gi, d * c) % pi == 1 {
        let hv = pow(gi, d);
        lemma_pow_multiplies(gi, d, c);
        lemma_pow_multiplies(gi, d, q);
        lemma_pow_multiplies(gi, q, d);
        assert(d * q == q * d) by (nonlinear_arith);
        lemma_pow_mod_noop(pow(gi, q), d, pi);
        lemma1_pow(d);
        lemma_small_mod(1, p);
        assert(pow(hv, q) % pi == 1);
        lemma_exponent_mod_order(hv, pi, q, c);
        lemma_order_descent(hv, pi, q, c % q);
        assert(pow(gi, d) % pi == 1);
        lemma_exponent_mod_order(gi, pi, q, d);
        lemma_order_descent(gi, pi, q, d % q);
        lemma_small_mod(gv, p);
    }
}

/// Soundness against a wrong secret: with valid parameters whose `q` is prime,
/// an answer computed with a secret `x2` that
/// differs from `x` modulo `q` fails the verification equation, for every
/// challenge `c` that is not a multiple of `q`. (For `c ≡ 0` the public keys
/// play no part in the equation and any secret passes.)
pub proof fn lemma_dl_wrong_secret_rejected(params: DlParams, x: nat, x2: nat, k: nat, c: nat)
    requires
        params.valid(),
        is_prime(params.q@),
        k < params.q@,
        x % params.q@ != x2 % params.q@,
        c % params.q@ != 0,
    ensures
        !check_spec(
            params,
            params.exp_spec(params.g@, x),
            params.exp_spec(params.h@, x),
            params.exp_spec(params.g@, k),
            params.exp_spec(params.h@, k),
            c,
            mod_sub_spec(k, c * x2, params.q@),
        ),
{
    let p = params.p@;
    let q = params.q@;
    let gv = be_nat(params.g@);
    let gi = gv as int;
    let pi = p as int;
    let qi = q as int;
    let s2: nat = mod_sub_spec(k, c * x2, q);
    let lhs = mod_mul_spec(mod_exp_spec(gv, s2, p), mod_exp_spec(mod_exp_spec(gv, x, p), c, p), p);
    let rhs = mod_exp_spec(gv, k, p);
    lemma_be_nat_of_bytes(mod_exp_spec(gv, s2, p));
    lemma_be_nat_of_bytes(mod_exp_spec(gv, x, p));
    lemma_be_nat_of_bytes(mod_exp_spec(mod_exp_spec(gv, x, p), c, p));
    lemma_be_bytes_injective(lhs, rhs);
    if lhs == rhs {
        let cx: nat = c * x;
        let cx2: nat = c * x2;
        // G^(s2 + c x) ≡ G^k
        lemma_pow_mod_noop(pow(gi, x), c, pi);
        lemma_pow_multiplies(gi, x, c);
        assert(x * c == cx) by (nonlinear_arith)
            requires
                cx == c * x,
        ;
        lemma_mul_mod_noop(pow(gi, s2), pow(gi, cx), pi);
        lemma_pow_adds(gi, s2, cx);
        assert(pow(gi, s2 + cx) % pi == pow(gi, k) % pi);
        // s2 + c x2 = k + q t
        let d: int = (k - cx2) / qi;
        lemma_fundamental_div_mod(k - cx2, qi);
        assert(qi * d < qi) by (nonlinear_arith)
            requires
                qi * d == k - cx2 - s2,
                k < qi,
                cx2 >= 0,
                s2 >= 0,
        ;
        assert(d <= 0) by (nonlinear_arith)
            requires
                qi * d < qi,
                qi > 0,
        ;
        let t: nat = (-d) as nat;
        assert(s2 + cx2 == k + q * t) by (nonlinear_arith)
            requires
                k - cx2 == qi * d + s2,
                t == -d,
                qi == q,
        ;
        // multiply both sides by G^(c x2): G^(k + c x) ≡ G^(k + c x2)
        lemma_mul_mod_noop(pow(gi, s2 + cx), pow(gi, cx2), pi);
        lemma_mul_mod_noop(pow(gi, k), pow(gi, cx2), pi);
        lemma_pow_adds(gi, s2 + cx, cx2);
        lemma_pow_adds(gi, k, cx2);
        assert(pow(gi, (s2 + cx) + cx2) % pi == pow(gi, k + cx2) % pi);
        assert((s2 + cx) + cx2 == (k + cx) + q * t);
        lemma_exponent_mod_order(gi, pi, q, (k + cx) + q * t);
        lemma_exponent_mod_order(gi, pi, q, k + cx);
        vstd::arithmetic::div_mod::lemma_mod_multiples_vanish(t as int, (k + cx) as int, qi);
        assert(q * t == t * q) by (nonlinear_arith);
        assert(pow(gi, k + cx) % pi == pow(gi, k + cx2) % pi);
        lemma_pow_adds(gi, k, cx);
        lemma_cancel_power(gi, pi, q, k, pow(gi, cx), pow(gi, cx2));
        // G^(c |x - x2|) ≡ 1
        let (hi, lo) = if x >= x2 {
            (x, x2)
        } else {
            (x2, x)
        };
        let delta: nat = (hi - lo) as nat;
        assert(c * hi == c * lo + delta * c) by (nonlinear_arith)
            requires
                delta == hi - lo,
        ;
        lemma_pow_adds(gi, c * lo, delta * c);
        lemma_small_mod(1, p);
        lemma_mul_mod_noop(pow(gi, c * lo), pow(gi, delta * c), pi);
        lemma_mul_mod_noop(pow(gi, c * lo), 1, pi);
        assert(pow(gi, c * lo) * 1 == pow(gi, c * lo));
        assert((pow(gi, c * lo) * pow(gi, delta * c)) % pi == (pow(gi, c * lo) * 1) % pi);
        lemma_cancel_power(gi, pi, q, c * lo, pow(gi, delta * c), 1);
        assert(pow(gi, delta * c) % pi == 1);
        // delta is not a multiple of q
        if delta % q == 0 {
            vstd::arithmetic::div_mod::lemma_mod_add_multiples_vanish(lo as int, qi);
            lemma_fundamental_div_mod(delta as int, qi);
            vstd::arithmetic::div_mod::lemma_mod_multiples_basic(delta as int / qi, qi);
            vstd::arithmetic::div_mod::lemma_mod_multiples_vanish(delta as int / qi, lo as int, qi);
            assert(hi == lo + qi * (delta as int / qi));
            assert(hi % q == lo % q);
        }
        assert(is_generator_spec(gv, q, p));
        lemma_no_small_power_is_one(gv, p, q, c, delta);
    }
}

/// Soundness against a tampered response: with valid parameters, the honest
/// answer plus one fails the verification equation,
/// whatever the secret, the nonce `k < q` and the challenge.
pub proof fn lemma_dl_tampered_response_rejected(params: DlParams, x: nat, k: nat, c: nat)
    requires
        params.valid(),
        k < params.q@,
    ensures
        !check_spec(
            params,
            params.exp_spec(params.g@, x),
            params.exp_spec(params.h@, x),
            params.exp_spec(params.g@, k),
            params.exp_spec(params.h@, k),
            c,
            mod_sub_spec(k, c * x, params.q@) + 1,
        ),
{
    let p = params.p@;
    let q = params.q@;
    let gv = be_nat(params.g@);
    let gi = gv as int;
    let pi = p as int;
    let s: nat = mod_sub_spec(k, c * x, q);
    let yc = mod_exp_spec(mod_exp_spec(gv, x, p), c, p);
    let lhs = mod_mul_spec(mod_exp_spec(gv, s + 1, p), yc, p);
    let rhs = mod_exp_spec(gv, k, p);
    lemma_be_nat_of_bytes(mod_exp_spec(gv, s + 1, p));
    lemma_be_nat_of_bytes(mod_exp_spec(gv, x, p));
    lemma_be_nat_of_bytes(yc);
    lemma_be_bytes_injective(lhs, rhs);
    lemma_exponent_identity(gv, p, q, x, k, c);
    // G^s · y^c ≡ G^k, so G^(s+1) · y^c ≡ G · G^k
    let a = pow(gi, s);
    let y = yc as int;
    let gk = pow(gi, k);
    lemma_pow_adds(gi, s, 1);
    lemma_pow1(gi);
    assert(pow(gi, s + 1) == a * gi);
    vstd::arithmetic::div_mod::lemma_mul_mod_noop_left(a, y, pi);
    assert((a * y) % pi == gk % pi);
    vstd::arithmetic::div_mod::lemma_mul_mod_noop_left(a * gi, y, pi);
    assert(lhs as int == ((a * gi) * y) % pi);
    assert((a * gi) * y == gi * (a * y)) by (nonlinear_arith);
    vstd::arithmetic::div_mod::lemma_mul_mod_noop_right(gi, a * y, pi);
    vstd::arithmetic::div_mod::lemma_mul_mod_noop_right(gi, gk, pi);
    assert(lhs as int == (gi * gk) % pi);
    if lhs == rhs {
        lemma_mul_is_commutative(gi, pow(gi, k));
        assert(pow(gi, k) * 1 == pow(gi, k));
        lemma_cancel_power(gi, pi, q, k, gi, 1);
        lemma_small_mod(gv, p);
        lemma_small_mod(1, p);
    }
}

} // verus!
