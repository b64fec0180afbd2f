//! Unsigned integers held as minimal big-endian byte strings, and the modular
//! arithmetic on them that OpenSSL's `BigNum` performs.
use openssl::bn::{BigNum, BigNumContext};
use openssl::error::ErrorStack;
use vstd::arithmetic::div_mod::lemma_mod_bound;
use vstd::arithmetic::power::{lemma_pow_adds, lemma_pow_multiplies, pow};
use vstd::prelude::*;

verus! {

/// The value of a big-endian unsigned byte string.
pub open spec fn be_nat(s: Seq<u8>) -> nat
    decreases s.len(),
{
    if s.len() == 0 {
        0
    } else {
        be_nat(s.drop_last()) * 256 + s.last() as nat
    }
}

/// The minimal big-endian encoding of `n` (empty for zero).
pub open spec fn be_bytes(n: nat) -> Seq<u8>
    decreases n,
{
    if n == 0 {
        Seq::empty()
    } else {
        be_bytes(n / 256).push((n % 256) as u8)
    }
}

/// Decoding the minimal encoding gives the number back.
pub proof fn lemma_be_nat_of_bytes(n: nat)
    ensures
        be_nat(be_bytes(n)) == n,
    decreases n,
{
    if n != 0 {
        lemma_be_nat_of_bytes(n / 256);
        assert(be_bytes(n).drop_last() =~= be_bytes(n / 256));
    }
}

/// Two numbers with the same minimal encoding are equal.
pub proof fn lemma_be_bytes_injective(a: nat, b: nat)
    ensures
        (be_bytes(a) == be_bytes(b)) == (a == b),
{
    lemma_be_nat_of_bytes(a);
    lemma_be_nat_of_bytes(b);
}

/// A larger number never has a shorter minimal encoding.
pub proof fn lemma_be_bytes_len_mono(x: nat, y: nat)
    requires
        x <= y,
    ensures
        be_bytes(x).len() <= be_bytes(y).len(),
    decreases y,
{
    if x != 0 {
        lemma_be_bytes_len_mono(x / 256, y / 256);
    }
}

/// The minimal encoding of a number is no longer than any encoding of it.
pub proof fn lemma_be_bytes_len_le(s: Seq<u8>)
    ensures
        be_bytes(be_nat(s)).len() <= s.len(),
    decreases s.len(),
{
    if s.len() > 0 {
        lemma_be_bytes_len_le(s.drop_last());
        let n = be_nat(s);
        if n != 0 {
            assert(n / 256 == be_nat(s.drop_last()));
        }
    }
}

/// A number below `m` has a minimal encoding no longer than the bytes of `m`.
pub proof fn lemma_below_fits(n: nat, m: &Num)
    requires
        n < m@,
    ensures
        be_bytes(n).len() <= m.bytes@.len(),
{
    lemma_be_bytes_len_mono(n, m@);
    lemma_be_bytes_len_le(m.bytes@);
}

/// The longest byte string that this library hands to OpenSSL as a number:
/// 1 MiB, far below what `BigNum::from_slice` asserts (a C `int` of bytes) and
/// below OpenSSL's own limit on the size of a number.
pub const MAX_NUM_BYTES: usize = 0x10_0000;

/// A nonnegative integer, stored in its minimal big-endian encoding.
pub struct Num {
    pub bytes: Vec<u8>,
}

impl View for Num {
    type V = nat;

    open spec fn view(&self) -> nat {
        be_nat(self.bytes@)
    }
}

impl Num {
    /// The bytes are the minimal encoding of the value.
    pub open spec fn wf(&self) -> bool {
        self.bytes@ == be_bytes(self@)
    }

    /// The bytes are short enough to be handed to OpenSSL.
    pub open spec fn fits(&self) -> bool {
        self.bytes@.len() <= MAX_NUM_BYTES
    }

    /// Reads an unsigned big-endian number of any length, leading zeros allowed.
    pub fn decode(data: &[u8]) -> (r: Result<Num, CryptoError>)
        ensures
            r matches Ok(n) ==> n.wf() && n.fits() && n@ == be_nat(data@),
            r is Ok <==> data@.len() <= MAX_NUM_BYTES,
    {
        if data.len() > MAX_NUM_BYTES {
            return Err(CryptoError);
        }
        match bn_normalize(data) {
            Ok(bytes) => {
                proof {
                    lemma_be_nat_of_bytes(be_nat(data@));
                    lemma_be_bytes_len_le(data@);
                }
                Ok(Num { bytes })
            },
            Err(e) => Err(CryptoError::from(e)),
        }
    }

    /// The minimal big-endian encoding.
    pub fn encode(&self) -> (r: Vec<u8>)
        ensures
            r@ == self.bytes@,
    {
        self.bytes.clone()
    }

    /// A copy of this number.
    pub fn copy(&self) -> (r: Num)
        ensures
            r.bytes@ == self.bytes@,
    {
        Num { bytes: self.bytes.clone() }
    }

    /// Whether two numbers are equal.
    pub fn equals(&self, other: &Num) -> (r: bool)
        requires
            self.wf(),
            other.wf(),
        ensures
            r == (self@ == other@),
    {
        proof {
            lemma_be_bytes_injective(self@, other@);
        }
        bytes_equal(self.bytes.as_slice(), other.bytes.as_slice())
    }
}

/// Whether two byte strings are equal.
pub fn bytes_equal(a: &[u8], b: &[u8]) -> (r: bool)
    ensures
        r == (a@ == b@),
{
    if a.len() != b.len() {
        return false;
    }
    let mut i: usize = 0;
    while i < a.len()
        invariant
            a@.len() == b@.len(),
            i <= a@.len(),
            a@.subrange(0, i as int) == b@.subrange(0, i as int),
        decreases a@.len() - i,
    {
        if a[i] != b[i] {
            assert(a@[i as int] != b@[i as int]);
            return false;
        }
        assert(a@.subrange(0, i + 1) =~= a@.subrange(0, i as int).push(a@[i as int]));
        assert(b@.subrange(0, i + 1) =~= b@.subrange(0, i as int).push(b@[i as int]));
        i = i + 1;
    }
    assert(a@ =~= a@.subrange(0, a@.len() as int));
    assert(b@ =~= b@.subrange(0, b@.len() as int));
    true
}

/// An arithmetic failure inside the big-number or curve library.
#[derive(Debug, Clone, Copy, PartialEq, Eq)]
pub struct CryptoError;

#[verifier::external_type_specification]
#[verifier::external_body]
pub struct ExErrorStack(ErrorStack);

impl From<ErrorStack> for CryptoError {
    fn from(e: ErrorStack) -> (r: CryptoError) {
        CryptoError
    }
}

impl vstd::std_specs::convert::FromSpecImpl<ErrorStack> for CryptoError {
    open spec fn obeys_from_spec() -> bool {
        true
    }

    open spec fn from_spec(e: ErrorStack) -> CryptoError {
        CryptoError
    }
}

/// Whether `n` is a prime number.
pub open spec fn is_prime(n: nat) -> bool {
    n > 1 && forall|d: nat| 1 < d < n ==> #[trigger] (n % d) != 0
}

/// `(a * b) mod m`, as `BN_mod_mul` computes it.
pub open spec fn mod_mul_spec(a: nat, b: nat, m: nat) -> nat
    recommends
        m > 0,
{
    ((a * b) % m) as nat
}

/// `(a - b) mod m`, never negative, as `BN_mod_sub` computes it.
pub open spec fn mod_sub_spec(a: nat, b: nat, m: nat) -> nat
    recommends
        m > 0,
{
    ((a - b) % (m as int)) as nat
}

/// `a^e mod m`, as `BN_mod_exp` computes it.
pub open spec fn mod_exp_spec(a: nat, e: nat, m: nat) -> nat
    recommends
        m > 0,
{
    (pow(a as int, e) % (m as int)) as nat
}

/// Whether the encoding is short enough to be handed to OpenSSL.
fn fits(a: &Num) -> (r: bool)
    ensures
        r == a.fits(),
{
    a.bytes.len() <= MAX_NUM_BYTES
}

/// The small number `v`.
pub fn small(v: u8) -> (r: Num)
    ensures
        r.wf(),
        r.fits(),
        r@ == v as nat,
        r.bytes@.len() <= 1,
{
    let r = if v == 0 {
        Num { bytes: Vec::new() }
    } else {
        Num { bytes: vec![v] }
    };
    proof {
        assert(be_bytes(0) =~= Seq::<u8>::empty());
        if v != 0 {
            assert(v as nat / 256 == 0);
            assert((v as nat % 256) as u8 == v);
            assert(be_bytes(v as nat) =~= seq![v]);
        } else {
            assert(r.bytes@ =~= Seq::<u8>::empty());
        }
        assert(r.bytes@ == be_bytes(v as nat));
        lemma_be_nat_of_bytes(v as nat);
    }
    r
}

/// `(a - b) mod m`, never negative; it fails only on operands too long for OpenSSL.
pub fn mod_sub(a: &Num, b: &Num, m: &Num) -> (r: Result<Num, CryptoError>)
    requires
        m@ > 0,
    ensures
        r matches Ok(n) ==> n.wf() && n.fits() && n@ == mod_sub_spec(a@, b@, m@),
        r is Ok <==> a.fits() && b.fits() && m.fits(),
{
    if !(fits(a) && fits(b) && fits(m)) {
        return Err(CryptoError);
    }
    let v = match bn_mod_sub(a.bytes.as_slice(), b.bytes.as_slice(), m.bytes.as_slice()) {
        Ok(v) => v,
        Err(e) => return Err(CryptoError::from(e)),
    };
    proof {
        lemma_be_nat_of_bytes(mod_sub_spec(a@, b@, m@));
        lemma_below_fits(mod_sub_spec(a@, b@, m@), m);
    }
    Ok(Num { bytes: v })
}

/// `(a * b) mod m`; it fails only on operands too long for OpenSSL.
pub fn mod_mul(a: &Num, b: &Num, m: &Num) -> (r: Result<Num, CryptoError>)
    requires
        m@ > 0,
    ensures
        r matches Ok(n) ==> n.wf() && n.fits() && n@ == mod_mul_spec(a@, b@, m@),
        r is Ok <==> a.fits() && b.fits() && m.fits(),
{
    if !(fits(a) && fits(b) && fits(m)) {
        return Err(CryptoError);
    }
    let v = match bn_mod_mul(a.bytes.as_slice(), b.bytes.as_slice(), m.bytes.as_slice()) {
        Ok(v) => v,
        Err(e) => return Err(CryptoError::from(e)),
    };
    proof {
        lemma_be_nat_of_bytes(mod_mul_spec(a@, b@, m@));
        lemma_mod_bound((a@ * b@) as int, m@ as int);
        lemma_below_fits(mod_mul_spec(a@, b@, m@), m);
    }
    Ok(Num { bytes: v })
}

/// `a^e mod m`; it fails only on operands too long for OpenSSL.
pub fn mod_exp(a: &Num, e: &Num, m: &Num) -> (r: Result<Num, CryptoError>)
    requires
        m@ > 0,
    ensures
        r matches Ok(n) ==> n.wf() && n.fits() && n@ == mod_exp_spec(a@, e@, m@),
        r is Ok <==> a.fits() && e.fits() && m.fits(),
{
    if !(fits(a) && fits(e) && fits(m)) {
        return Err(CryptoError);
    }
    let v = match bn_mod_exp(a.bytes.as_slice(), e.bytes.as_slice(), m.bytes.as_slice()) {
        Ok(v) => v,
        Err(e) => return Err(CryptoError::from(e)),
    };
    proof {
        lemma_be_nat_of_bytes(mod_exp_spec(a@, e@, m@));
        lemma_mod_bound(pow(a@ as int, e@), m@ as int);
        lemma_below_fits(mod_exp_spec(a@, e@, m@), m);
    }
    Ok(Num { bytes: v })
}

/// A uniformly random number in `[0, p)`. The draw itself may fail.
pub fn rng(p: &Num) -> (r: Result<Num, CryptoError>)
    ensures
        r matches Ok(n) ==> n.wf() && n.fits() && n@ < p@,
        !p.fits() ==> r is Err,
{
    if !fits(p) {
        return Err(CryptoError);
    }
    match bn_rand_range(p.bytes.as_slice()) {
        Ok(v) => {
            proof {
                lemma_be_nat_of_bytes(be_nat(v@));
                lemma_below_fits(be_nat(v@), p);
            }
            Ok(Num { bytes: v })
        },
        Err(e) => Err(CryptoError::from(e)),
    }
}

/// `(p - 1) / 2`, the order of the subgroup of squares modulo a safe prime `p`;
/// it fails only on a `p` too long for OpenSSL.
pub fn half_of_predecessor(p: &Num) -> (r: Result<Num, CryptoError>)
    requires
        p@ >= 1,
    ensures
        r matches Ok(n) ==> n.wf() && n.fits() && n@ == (p@ - 1) as nat / 2,
        r is Ok <==> p.fits(),
{
    let one = small(1);
    if !fits(p) {
        return Err(CryptoError);
    }
    let pred = match bn_sub(p.bytes.as_slice(), one.bytes.as_slice()) {
        Ok(v) => v,
        Err(e) => return Err(CryptoError::from(e)),
    };
    proof {
        lemma_be_nat_of_bytes((p@ - 1) as nat);
        lemma_below_fits((p@ - 1) as nat, p);
    }
    let v = match bn_div_word(pred.as_slice(), 2) {
        Ok(v) => v,
        Err(e) => return Err(CryptoError::from(e)),
    };
    proof {
        lemma_be_nat_of_bytes((p@ - 1) as nat / 2);
        lemma_below_fits((p@ - 1) as nat / 2, p);
    }
    Ok(Num { bytes: v })
}

/// The value of a minimal encoding lies between its top byte and the next
/// value of the top byte, scaled by the bytes below it.
proof fn lemma_top_byte_bounds(s: Seq<u8>)
    requires
        s.len() >= 1,
    ensures
        (s[0] as int) * pow(256, (s.len() - 1) as nat) <= be_nat(s),
        be_nat(s) < (s[0] as int + 1) * pow(256, (s.len() - 1) as nat),
    decreases s.len(),
{
    reveal(pow);
    if s.len() == 1 {
        assert(s.drop_last().len() == 0);
        assert(be_nat(s.drop_last()) == 0);
        assert(s.last() == s[0]);
        assert(be_nat(s) == s[0] as nat);
        assert(pow(256, 0) == 1);
    } else {
        let rest = s.drop_last();
        lemma_top_byte_bounds(rest);
        assert(rest[0] == s[0]);
        let t = s[0] as int;
        let big = pow(256, (s.len() - 2) as nat);
        assert(pow(256, (s.len() - 1) as nat) == 256 * big);
        let b = be_nat(rest) as int;
        let last = s.last() as int;
        assert(be_nat(s) == b * 256 + last);
        assert((t + 1) * pow(256, (s.len() - 1) as nat) == (t + 1) * (256 * big));
        assert(t * pow(256, (s.len() - 1) as nat) == t * (256 * big));
        assert(t * (256 * big) <= b * 256 + last && b * 256 + last < (t + 1) * (256 * big))
            by (nonlinear_arith)
            requires
                t * big <= b,
                b < (t + 1) * big,
                0 <= last < 256,
        ;
    }
}

/// A nonzero number's minimal encoding starts with a nonzero byte.
proof fn lemma_top_byte_nonzero(n: nat)
    ensures
        n > 0 ==> be_bytes(n).len() > 0 && be_bytes(n)[0] != 0,
    decreases n,
{
    if n > 0 {
        lemma_top_byte_nonzero(n / 256);
        if n / 256 == 0 {
            assert(be_bytes(0) =~= Seq::<u8>::empty());
            assert(be_bytes(n)[0] == (n % 256) as u8);
        } else {
            assert(be_bytes(n)[0] == be_bytes(n / 256)[0]);
        }
    }
}

proof fn lemma_pow_positive_256(m: nat)
    ensures
        pow(256, m) > 0,
{
    vstd::arithmetic::power::lemma_pow_positive(256, m);
}

/// The number of bits of a nonzero byte.
fn byte_bits(t: u8) -> (k: u64)
    requires
        t > 0,
    ensures
        1 <= k <= 8,
        pow(2, (k - 1) as nat) <= t as int,
        (t as int) < pow(2, k as nat),
{
    proof {
        reveal_with_fuel(pow, 9);
    }
    if t >= 128 {
        8
    } else if t >= 64 {
        7
    } else if t >= 32 {
        6
    } else if t >= 16 {
        5
    } else if t >= 8 {
        4
    } else if t >= 4 {
        3
    } else if t >= 2 {
        2
    } else {
        1
    }
}

/// The number of significant bits of `n`: `n < 2^r`, and `2^(r-1) <= n`
/// unless `n` is zero.
pub fn num_bits(n: &Num) -> (r: u64)
    requires
        n.wf(),
        n.fits(),
    ensures
        (n@ as int) < pow(2, r as nat),
        n@ > 0 ==> pow(2, (r - 1) as nat) <= n@ as int,
{
    if n.bytes.len() == 0 {
        proof {
            reveal(pow);
            assert(n.bytes@ =~= Seq::<u8>::empty());
        }
        return 0;
    }
    let len = n.bytes.len() as u64;
    let t = n.bytes[0];
    proof {
        assert(be_bytes(0) =~= Seq::<u8>::empty());
        lemma_top_byte_nonzero(n@);
        lemma_top_byte_bounds(n.bytes@);
    }
    let k = byte_bits(t);
    let r = 8 * (len - 1) + k;
    proof {
        let m = (len - 1) as nat;
        let sc = pow(256, m);
        lemma_pow_multiplies(2, 8, m);
        reveal_with_fuel(pow, 9);
        assert(pow(2, 8) == 256);
        assert(sc == pow(2, 8 * m));
        lemma_pow_adds(2, 8 * m, k as nat);
        lemma_pow_adds(2, 8 * m, (k - 1) as nat);
        assert(8 * m + k == r);
        let tv = t as int;
        let lo = pow(2, (k - 1) as nat);
        let hi = pow(2, k as nat);
        lemma_pow_positive_256(m);
        assert((tv + 1) * sc <= hi * sc) by (nonlinear_arith)
            requires
                tv + 1 <= hi,
                sc >= 0,
        ;
        assert(lo * sc <= tv * sc) by (nonlinear_arith)
            requires
                lo <= tv,
                sc >= 0,
        ;
        assert(sc * pow(2, k as nat) == hi * sc);
        assert(sc * pow(2, (k - 1) as nat) == lo * sc);
    }
    r
}

/// A random safe prime `p` of at least `bits` bits: `p` and `(p - 1) / 2` are prime.
pub fn generate_safe_prime(bits: i32) -> (r: Result<Num, CryptoError>)
    requires
        bits >= 1,
    ensures
        r matches Ok(n) ==> {
            &&& n.wf()
            &&& n.fits()
            &&& is_prime(n@)
            &&& is_prime((n@ - 1) as nat / 2)
            &&& n@ >= pow(2, (bits - 1) as nat)
        },
{
    match bn_generate_safe_prime(bits) {
        Ok(v) => {
            if v.len() > MAX_NUM_BYTES {
                return Err(CryptoError);
            }
            proof {
                lemma_be_nat_of_bytes(be_nat(v@));
            }
            Ok(Num { bytes: v })
        },
        Err(e) => Err(CryptoError::from(e)),
    }
}

/// Relies on `BigNum::from_slice` (BN_bin2bn) and `BigNum::to_vec` (BN_bn2bin):
/// reading big-endian bytes and writing them back gives the minimal encoding.
/// `from_slice` asserts that the length fits in a C `int`.
/// On numbers of at most `MAX_NUM_BYTES` bytes, OpenSSL fails here only when
/// memory runs out; like Rust's own collections, this library does not model that.
#[verifier::external_body]
fn bn_normalize(a: &[u8]) -> (r: Result<Vec<u8>, ErrorStack>)
    requires
        a@.len() <= MAX_NUM_BYTES,
    ensures
        r matches Ok(v) ==> v@ == be_bytes(be_nat(a@)),
        r is Ok,
{
    Ok(BigNum::from_slice(a)?.to_vec())
}

/// Relies on `BigNum::mod_sub` (BN_mod_sub): the nonnegative remainder of `a - b` modulo `m`.
/// On numbers of at most `MAX_NUM_BYTES` bytes and a nonzero modulus, which
/// `requires` asks for, OpenSSL fails here only when memory runs out; like
/// Rust's own collections, this library does not model that.
#[verifier::external_body]
fn bn_mod_sub(a: &[u8], b: &[u8], m: &[u8]) -> (r: Result<Vec<u8>, ErrorStack>)
    requires
        a@.len() <= MAX_NUM_BYTES,
        b@.len() <= MAX_NUM_BYTES,
        m@.len() <= MAX_NUM_BYTES,
        be_nat(m@) > 0,
    ensures
        r matches Ok(v) ==> v@ == be_bytes(mod_sub_spec(be_nat(a@), be_nat(b@), be_nat(m@))),
        r is Ok,
{
    let mut ctx = BigNumContext::new()?;
    let mut out = BigNum::new()?;
    let (a, b, m) = (BigNum::from_slice(a)?, BigNum::from_slice(b)?, BigNum::from_slice(m)?);
    out.mod_sub(&a, &b, &m, &mut ctx)?;
    Ok(out.to_vec())
}

/// Relies on `BigNum::mod_mul` (BN_mod_mul): `(a * b) mod m`.
/// On numbers of at most `MAX_NUM_BYTES` bytes and a nonzero modulus, which
/// `requires` asks for, OpenSSL fails here only when memory runs out; like
/// Rust's own collections, this library does not model that.
#[verifier::external_body]
fn bn_mod_mul(a: &[u8], b: &[u8], m: &[u8]) -> (r: Result<Vec<u8>, ErrorStack>)
    requires
        a@.len() <= MAX_NUM_BYTES,
        b@.len() <= MAX_NUM_BYTES,
        m@.len() <= MAX_NUM_BYTES,
        be_nat(m@) > 0,
    ensures
        r matches Ok(v) ==> v@ == be_bytes(mod_mul_spec(be_nat(a@), be_nat(b@), be_nat(m@))),
        r is Ok,
{
    let mut ctx = BigNumContext::new()?;
    let mut out = BigNum::new()?;
    let (a, b, m) = (BigNum::from_slice(a)?, BigNum::from_slice(b)?, BigNum::from_slice(m)?);
    out.mod_mul(&a, &b, &m, &mut ctx)?;
    Ok(out.to_vec())
}

/// Relies on `BigNum::mod_exp` (BN_mod_exp): `a^e mod m`.
/// On numbers of at most `MAX_NUM_BYTES` bytes and a nonzero modulus, which
/// `requires` asks for, OpenSSL fails here only when memory runs out; like
/// Rust's own collections, this library does not model that.
#[verifier::external_body]
fn bn_mod_exp(a: &[u8], e: &[u8], m: &[u8]) -> (r: Result<Vec<u8>, ErrorStack>)
    requires
        a@.len() <= MAX_NUM_BYTES,
        e@.len() <= MAX_NUM_BYTES,
        m@.len() <= MAX_NUM_BYTES,
        be_nat(m@) > 0,
    ensures
        r matches Ok(v) ==> v@ == be_bytes(mod_exp_spec(be_nat(a@), be_nat(e@), be_nat(m@))),
        r is Ok,
{
    let mut ctx = BigNumContext::new()?;
    let mut out = BigNum::new()?;
    let (a, e, m) = (BigNum::from_slice(a)?, BigNum::from_slice(e)?, BigNum::from_slice(m)?);
    out.mod_exp(&a, &e, &m, &mut ctx)?;
    Ok(out.to_vec())
}

/// Relies on `BigNum::rand_range` (BN_rand_range): a random number below `p`,
/// written back with `to_vec` in its minimal encoding.
#[verifier::external_body]
fn bn_rand_range(p: &[u8]) -> (r: Result<Vec<u8>, ErrorStack>)
    requires
        p@.len() <= MAX_NUM_BYTES,
    ensures
        r matches Ok(v) ==> v@ == be_bytes(be_nat(v@)) && be_nat(v@) < be_nat(p@),
{
    let mut out = BigNum::new()?;
    BigNum::from_slice(p)?.rand_range(&mut out)?;
    Ok(out.to_vec())
}

/// Relies on `BigNum::checked_sub` (BN_sub): `a - b`, here never negative.
/// On numbers of at most `MAX_NUM_BYTES` bytes, OpenSSL fails here only when
/// memory runs out; like Rust's own collections, this library does not model that.
#[verifier::external_body]
fn bn_sub(a: &[u8], b: &[u8]) -> (r: Result<Vec<u8>, ErrorStack>)
    requires
        a@.len() <= MAX_NUM_BYTES,
        b@.len() <= MAX_NUM_BYTES,
        be_nat(a@) >= be_nat(b@),
    ensures
        r matches Ok(v) ==> v@ == be_bytes((be_nat(a@) - be_nat(b@)) as nat),
        r is Ok,
{
    let mut out = BigNum::new()?;
    let (a, b) = (BigNum::from_slice(a)?, BigNum::from_slice(b)?);
    out.checked_sub(&a, &b)?;
    Ok(out.to_vec())
}

/// Relies on `BigNum::div_word` (BN_div_word): replaces the number by its quotient by `w`.
/// On numbers of at most `MAX_NUM_BYTES` bytes, OpenSSL fails here only when
/// memory runs out; like Rust's own collections, this library does not model that.
#[verifier::external_body]
fn bn_div_word(a: &[u8], w: u32) -> (r: Result<Vec<u8>, ErrorStack>)
    requires
        a@.len() <= MAX_NUM_BYTES,
        w > 0,
    ensures
        r matches Ok(v) ==> v@ == be_bytes(be_nat(a@) / w as nat),
        r is Ok,
{
    let mut n = BigNum::from_slice(a)?;
    n.div_word(w)?;
    Ok(n.to_vec())
}

/// Relies on `BigNum::generate_prime` (BN_generate_prime_ex) with `safe` set:
/// a prime `p` whose `(p - 1) / 2` is prime too, of at least `bits` bits.
#[verifier::external_body]
fn bn_generate_safe_prime(bits: i32) -> (r: Result<Vec<u8>, ErrorStack>)
    requires
        bits >= 1,
    ensures
        r matches Ok(v) ==> {
            &&& v@ == be_bytes(be_nat(v@))
            &&& is_prime(be_nat(v@))
            &&& is_prime((be_nat(v@) - 1) as nat / 2)
            &&& be_nat(v@) >= pow(2, (bits - 1) as nat)
        },
{
    let mut p = BigNum::new()?;
    p.generate_prime(bits, true, None, None)?;
    Ok(p.to_vec())
}

} // verus!
