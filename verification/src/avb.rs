//! AVB hash-footer signing: vbmeta block construction and the
//! Android-format public key blob.
//!
//! All byte layouts are built by verified code against byte-level
//! models; only the RSA primitives, SHA-256, and the big-number
//! remainder come from outside crates.

use vstd::prelude::*;
use vstd::arithmetic::div_mod::{
    lemma_fundamental_div_mod, lemma_fundamental_div_mod_converse, lemma_mod_mod,
    lemma_mod_multiples_vanish, lemma_mul_mod_noop_right, lemma_small_mod,
};
use vstd::arithmetic::power2::{lemma2_to64, lemma_pow2_adds, lemma_pow2_pos, pow2};
use num_bigint::BigUint;
use rsa::pkcs1::DecodeRsaPrivateKey;
use rsa::pkcs8::DecodePrivateKey;
use sha2::Digest;
use crate::error::FlashError;

verus! {

/// `x` rounded up to a multiple of `a`.
pub open spec fn align_up_spec(x: int, a: int) -> int {
    ((x + a - 1) / a) * a
}

pub proof fn lemma_align_up(x: int, a: int)
    requires
        x >= 0,
        a >= 1,
    ensures
        x <= align_up_spec(x, a) < x + a,
        align_up_spec(x, a) % a == 0,
        align_up_spec(x, a) - x == (a - x % a) % a,
{
    assert(x <= ((x + a - 1) / a) * a < x + a) by (nonlinear_arith)
        requires x >= 0, a >= 1;
    assert((((x + a - 1) / a) * a) % a == 0) by (nonlinear_arith)
        requires x >= 0, a >= 1;
    assert(((x + a - 1) / a) * a - x == (a - x % a) % a) by (nonlinear_arith)
        requires x >= 0, a >= 1;
}

/// Round `x` up to a multiple of `a`.
pub fn align_up(x: usize, a: usize) -> (r: usize)
    requires
        a >= 1,
        x + a <= usize::MAX,
    ensures
        r as int == align_up_spec(x as int, a as int),
{
    proof {
        lemma_align_up(x as int, a as int);
    }
    ((x + a - 1) / a) * a
}

/// The four big-endian bytes of `v`.
#[verifier::opaque]
pub open spec fn be32_spec(v: int) -> Seq<u8> {
    seq![
        ((v / 0x1000000) % 256) as u8,
        ((v / 0x10000) % 256) as u8,
        ((v / 0x100) % 256) as u8,
        (v % 256) as u8,
    ]
}

/// The eight big-endian bytes of `v`.
#[verifier::opaque]
pub open spec fn be64_spec(v: int) -> Seq<u8> {
    seq![
        ((v / 0x100000000000000) % 256) as u8,
        ((v / 0x1000000000000) % 256) as u8,
        ((v / 0x10000000000) % 256) as u8,
        ((v / 0x100000000) % 256) as u8,
        ((v / 0x1000000) % 256) as u8,
        ((v / 0x10000) % 256) as u8,
        ((v / 0x100) % 256) as u8,
        (v % 256) as u8,
    ]
}

/// The big-endian bytes of a 32-bit value.
pub fn be32(v: u32) -> (r: [u8; 4])
    ensures
        r@ == be32_spec(v as int),
{
    proof {
        reveal(be32_spec);
    }
    [((v / 0x1000000) % 256) as u8, ((v / 0x10000) % 256) as u8, ((v / 0x100) % 256) as u8,
        (v % 256) as u8]
}

/// The big-endian bytes of a 64-bit value.
pub fn be64(v: u64) -> (r: [u8; 8])
    ensures
        r@ == be64_spec(v as int),
{
    proof {
        reveal(be64_spec);
    }
    [((v / 0x100000000000000) % 256) as u8, ((v / 0x1000000000000) % 256) as u8, ((v
        / 0x10000000000) % 256) as u8, ((v / 0x100000000) % 256) as u8, ((v / 0x1000000)
        % 256) as u8, ((v / 0x10000) % 256) as u8, ((v / 0x100) % 256) as u8, (v
        % 256) as u8]
}

/// Append the four big-endian bytes of `v`.
fn push_be32(out: &mut Vec<u8>, v: u32)
    ensures
        final(out)@ == old(out)@ + be32_spec(v as int),
{
    let ghost pre = out@;
    let b = be32(v);
    out.push(b[0]);
    out.push(b[1]);
    out.push(b[2]);
    out.push(b[3]);
    proof {
        assert(out@ =~= pre + be32_spec(v as int));
    }
}

/// Append the eight big-endian bytes of `v`.
fn push_be64(out: &mut Vec<u8>, v: u64)
    ensures
        final(out)@ == old(out)@ + be64_spec(v as int),
{
    let ghost pre = out@;
    let b = be64(v);
    out.push(b[0]);
    out.push(b[1]);
    out.push(b[2]);
    out.push(b[3]);
    out.push(b[4]);
    out.push(b[5]);
    out.push(b[6]);
    out.push(b[7]);
    proof {
        assert(out@ =~= pre + be64_spec(v as int));
    }
}

/// A sequence of `n` zero bytes.
pub open spec fn zeros(n: int) -> Seq<u8> {
    Seq::new(n as nat, |i: int| 0u8)
}

/// Append `n` zero bytes.
fn push_zeros(out: &mut Vec<u8>, n: usize)
    ensures
        final(out)@ == old(out)@ + zeros(n as int),
{
    let ghost pre = out@;
    let mut j: usize = 0;
    while j < n
        invariant
            j <= n,
            out@ == pre + zeros(j as int),
        decreases n - j,
    {
        out.push(0);
        proof {
            assert(out@ =~= pre + zeros(j + 1));
        }
        j += 1;
    }
}

/// Append a whole slice.
fn push_bytes(out: &mut Vec<u8>, data: &[u8])
    ensures
        final(out)@ == old(out)@ + data@,
{
    out.extend_from_slice(data);
}

// ---------------------------------------------------------------------------
// Montgomery inverse of the modulus' low word.

/// One Hensel lifting step: squares the precision of an inverse of
/// `n0` modulo a power of two.
fn hensel_step(n0: u32, x: u128, Ghost(k): Ghost<int>) -> (r: u128)
    requires
        n0 % 2 == 1,
        x < 0x1_0000_0000_0000_0000,
        1 <= k <= 64,
        ((n0 as int) * (x as int)) % (pow2(k as nat) as int) == 1,
    ensures
        r < 0x1_0000_0000_0000_0000,
        ({
            let j = if 2 * k <= 64 { 2 * k } else { 64int };
            ((n0 as int) * (r as int)) % (pow2(j as nat) as int) == 1
        }),
{
    let m: u128 = 0x1_0000_0000_0000_0000;
    proof {
        assert((n0 as int) * (x as int) < 0x1_0000_0000_0000_0000_0000_0000int) by (
            nonlinear_arith)
            requires n0 <= 0xFFFF_FFFFu32, x < 0x1_0000_0000_0000_0000u128;
    }
    let p: u128 = (n0 as u128 * x) % m;
    let t: u128 = (2u128 + m - p) % m;
    proof {
        assert((x as int) * (t as int) <= 0xFFFF_FFFF_FFFF_FFFFint
            * 0xFFFF_FFFF_FFFF_FFFFint) by (nonlinear_arith)
            requires x < 0x1_0000_0000_0000_0000u128, t < 0x1_0000_0000_0000_0000u128;
    }
    let r: u128 = (x * t) % m;
    proof {
        let nn = n0 as int;
        let xx = x as int;
        let mm = m as int;
        let j = if 2 * k <= 64 { 2 * k } else { 64int };
        lemma2_to64();
        lemma_pow2_pos(k as nat);
        lemma_pow2_pos(j as nat);
        assert(mm == pow2(64) as int);
        let pk = pow2(k as nat) as int;
        let pj = pow2(j as nat) as int;
        // p == (nn * xx) % mm
        assert(p as int == (nn * xx) % mm);
        // t == (2 - nn * xx) mod mm
        assert(t as int == (2 + mm - p as int) % mm);
        lemma_mod_multiples_vanish(1, 2 - p as int, mm);
        assert((2 + mm - p as int) == mm * 1 + (2 - p as int));
        assert(t as int == (2 - p as int) % mm);
        // Replace p by nn * xx under the subtraction, modulo mm.
        lemma_mod_multiples_vanish((nn * xx) / mm, 2 - p as int, mm);
        lemma_fundamental_div_mod(nn * xx, mm);
        assert(2 - nn * xx == mm * (-((nn * xx) / mm)) + (2 - p as int));
        lemma_mod_multiples_vanish(-((nn * xx) / mm), 2 - p as int, mm);
        assert((2 - nn * xx) % mm == (2 - p as int) % mm);
        assert(t as int == (2 - nn * xx) % mm);
        // nn * r == nn * xx * (2 - nn * xx) modulo mm.
        lemma_mul_mod_noop_right(nn, (x * t) as int, mm);
        assert(r as int == ((x * t) as int) % mm);
        assert((nn * (r as int)) % mm == (nn * ((x * t) as int)) % mm) by {
            lemma_mul_mod_noop_right(nn, (x * t) as int, mm);
            assert(r as int == ((x * t) as int) % mm);
        }
        assert(nn * (xx * (t as int)) == (nn * xx) * (t as int)) by (nonlinear_arith);
        lemma_mul_mod_noop_right(nn * xx, 2 - nn * xx, mm);
        assert(((nn * xx) * (t as int)) % mm == ((nn * xx) * (2 - nn * xx)) % mm) by {
            lemma_mul_mod_noop_right(nn * xx, 2 - nn * xx, mm);
            assert(t as int == (2 - nn * xx) % mm);
        }
        // The defect squares: 1 - a(2 - a) == (1 - a)^2.
        let a = nn * xx;
        lemma_fundamental_div_mod(a, pk);
        assert(a % pk == 1);
        let qq = a / pk;
        assert(a - 1 == pk * qq);
        assert(a * (2 - a) == 1 - (a - 1) * (a - 1)) by (nonlinear_arith);
        assert((a - 1) * (a - 1) == (pk * pk) * (qq * qq)) by (nonlinear_arith)
            requires a - 1 == pk * qq;
        let p2k = pow2((2 * k) as nat) as int;
        assert(pow2((2 * k) as nat) == pow2(k as nat) * pow2(k as nat)) by {
            lemma_pow2_adds(k as nat, k as nat);
            assert((2 * k) as nat == k as nat + k as nat);
        }
        assert(pk * pk == p2k);
        // pow2(2k) is a multiple of pow2(j).
        let w = pow2((2 * k - j) as nat) as int;
        assert(p2k == pj * w) by {
            lemma_pow2_adds(j as nat, (2 * k - j) as nat);
            assert((2 * k) as nat == j as nat + (2 * k - j) as nat);
        }
        assert(a * (2 - a) == 1 - p2k * (qq * qq));
        assert(p2k * (qq * qq) == pj * (w * (qq * qq))) by (nonlinear_arith)
            requires p2k == pj * w;
        assert(a * (2 - a) == pj * (-(w * (qq * qq))) + 1) by (nonlinear_arith)
            requires a * (2 - a) == 1 - pj * (w * (qq * qq));
        lemma_mod_multiples_vanish(-(w * (qq * qq)), 1, pj);
        assert((a * (2 - a)) % pj == 1int % pj);
        assert(pj >= 2) by {
            lemma_pow2_adds(1, (j - 1) as nat);
            lemma_pow2_pos((j - 1) as nat);
            assert(j as nat == 1 + (j - 1) as nat);
            assert(pow2(1) == 2) by { lemma2_to64(); }
        }
        lemma_small_mod(1nat, pj as nat);
        assert((a * (2 - a)) % pj == 1);
        // Pass from modulo 2^64 to modulo 2^j.
        let u = pow2((64 - j) as nat) as int;
        lemma_pow2_pos((64 - j) as nat);
        assert(pj * u == mm) by {
            lemma_pow2_adds(j as nat, (64 - j) as nat);
            assert(64nat == j as nat + (64 - j) as nat);
        }
        lemma_mod_mod(nn * (r as int), pj, u);
        assert((nn * (r as int)) % pj == ((nn * (r as int)) % mm) % pj);
        lemma_mod_mod(a * (2 - a), pj, u);
        assert((a * (2 - a)) % pj == ((a * (2 - a)) % mm) % pj);
        assert((nn * (r as int)) % pj == 1);
    }
    r
}

/// An odd number is its own inverse modulo eight.
proof fn lemma_inv_base(n: int)
    requires
        n >= 0,
        n % 2 == 1,
    ensures
        (n * n) % 8 == 1,
{
    let j = (n - 1) / 2;
    assert(n == 2 * j + 1) by {
        lemma_fundamental_div_mod(n, 2);
        lemma_fundamental_div_mod(n - 1, 2);
        assert((n - 1) % 2 == 0) by (nonlinear_arith)
            requires n % 2 == 1;
    }
    assert(j >= 0);
    if j % 2 == 0 {
        let i = j / 2;
        lemma_fundamental_div_mod(j, 2);
        assert(j == 2 * i);
        assert(n * n == 8 * (i * (j + 1)) + 1) by (nonlinear_arith)
            requires n == 2 * j + 1, j == 2 * i;
        lemma_mod_multiples_vanish(i * (j + 1), 1, 8);
        lemma_small_mod(1nat, 8nat);
    } else {
        let i = (j + 1) / 2;
        lemma_fundamental_div_mod(j + 1, 2);
        assert((j + 1) % 2 == 0) by (nonlinear_arith)
            requires j % 2 == 1;
        assert(j + 1 == 2 * i);
        assert(n * n == 8 * (j * i) + 1) by (nonlinear_arith)
            requires n == 2 * j + 1, j + 1 == 2 * i;
        lemma_mod_multiples_vanish(j * i, 1, 8);
        lemma_small_mod(1nat, 8nat);
    }
}

/// The Montgomery constant of the key's low modulus word: the value
/// `inv` with `n0 * inv == -1 modulo 2^32` for odd `n0`, and zero for
/// even `n0` (which no RSA modulus has).
pub fn mont_n0inv(n0: u32) -> (r: u32)
    ensures
        n0 % 2 == 1 ==> ((n0 as int) * (r as int)) % 0x1_0000_0000 == 0xFFFF_FFFF,
        n0 % 2 == 0 ==> r == 0,
{
    if n0 % 2 == 0 {
        return 0;
    }
    proof {
        lemma2_to64();
        lemma_inv_base(n0 as int);
        assert((n0 as int) * (n0 as int) % (pow2(3) as int) == 1);
    }
    let x0: u128 = n0 as u128;
    let x1 = hensel_step(n0, x0, Ghost(3));
    let x2 = hensel_step(n0, x1, Ghost(6));
    let x3 = hensel_step(n0, x2, Ghost(12));
    let x4 = hensel_step(n0, x3, Ghost(24));
    let x5 = hensel_step(n0, x4, Ghost(48));
    let inv32: u32 = (x5 % 0x1_0000_0000) as u32;
    proof {
        let nn = n0 as int;
        let p32 = 0x1_0000_0000int;
        lemma2_to64();
        assert(p32 * p32 == pow2(64) as int) by {
            lemma_pow2_adds(32, 32);
        }
        assert((nn * (x5 as int)) % p32 == 1) by {
            lemma_mod_mod(nn * (x5 as int), p32, p32);
        }
        lemma_mul_mod_noop_right(nn, x5 as int, p32);
        assert(inv32 as int == (x5 as int) % p32);
        assert((nn * (inv32 as int)) % p32 == 1);
        // The inverse is nonzero, so the negation below stays in range.
        assert(inv32 != 0) by {
            if inv32 == 0 {
                assert(nn * 0int == 0);
                lemma_small_mod(0nat, p32 as nat);
            }
        }
    }
    let r: u32 = (0x1_0000_0000u64 - inv32 as u64) as u32;
    proof {
        let nn = n0 as int;
        let p32 = 0x1_0000_0000int;
        let q = (nn * (inv32 as int)) / p32;
        lemma_fundamental_div_mod(nn * (inv32 as int), p32);
        assert(nn * (inv32 as int) == p32 * q + 1);
        assert(q >= 0) by (nonlinear_arith)
            requires nn * (inv32 as int) == p32 * q + 1, nn >= 0, inv32 >= 0,
                p32 == 0x1_0000_0000;
        assert(q < nn) by (nonlinear_arith)
            requires nn * (inv32 as int) == p32 * q + 1, inv32 < p32, nn >= 1,
                p32 == 0x1_0000_0000;
        assert(nn * (r as int) == p32 * (nn - q - 1) + (p32 - 1)) by (nonlinear_arith)
            requires r as int == p32 - inv32 as int, nn * (inv32 as int) == p32 * q + 1,
                p32 == 0x1_0000_0000;
        lemma_fundamental_div_mod_converse(nn * (r as int), p32, nn - q - 1, p32 - 1);
    }
    r
}

// ---------------------------------------------------------------------------
// Named results of the outside crates.

pub uninterp spec fn sha256_of(d: Seq<u8>) -> Seq<u8>;

/// Whether the RSA crate accepts this PEM text as a private key.
pub uninterp spec fn rsa_pem_parses(s: Seq<char>) -> bool;

/// The modulus of the private key a PEM text carries, big-endian
/// without leading zeros; a function of the text alone.
pub uninterp spec fn modulus_of(pem: Seq<char>) -> Seq<u8>;

/// The PKCS#1 v1.5 SHA-256 signature of `msg` under the key in `pem`:
/// the v1.5 signature value is deterministic in key and message.
pub uninterp spec fn rsa_sig_of(pem: Seq<char>, msg: Seq<u8>) -> Seq<u8>;

/// Relies on sha2's `Sha256`: a 32-byte digest depending on the input
/// bytes alone.
#[verifier::external_body]
fn sha256_digest(data: &[u8]) -> (r: Vec<u8>)
    ensures
        r@ == sha256_of(data@),
        r@.len() == 32,
{
    sha2::Sha256::digest(data).to_vec()
}

/// Relies on rsa's `from_pkcs1_pem` / `from_pkcs8_pem` (tried in that
/// order) and `PublicKeyParts::n` with num-bigint's `to_bytes_be`:
/// the accepted key's modulus, big-endian and minimal (no leading
/// zero), odd and nonzero because key validation rejects an even or
/// zero modulus.
#[verifier::external_body]
fn key_modulus_be(pem: &str) -> (r: Result<Vec<u8>, FlashError>)
    ensures
        r is Ok <==> rsa_pem_parses(pem@),
        r matches Ok(n) ==> n@ == modulus_of(pem@) && n@.len() >= 1 && n@[0] != 0 && n@[
            n@.len() - 1] % 2 == 1,
        r matches Err(e) ==> e is AvbError,
{
    let key = rsa::RsaPrivateKey::from_pkcs1_pem(pem)
        .or_else(|_| rsa::RsaPrivateKey::from_pkcs8_pem(pem))
        .map_err(|e| FlashError::AvbError(format!("parse rsa key failed: {e}")))?;
    Ok(rsa::traits::PublicKeyParts::n(&key).to_bytes_be())
}

/// The value of big-endian bytes.
pub open spec fn be_val(s: Seq<u8>) -> int
    decreases s.len(),
{
    if s.len() == 0 {
        0
    } else {
        be_val(s.drop_last()) * 256 + s.last()
    }
}

/// Relies on num-bigint: `(2^bits)^2 mod n`, big-endian without
/// leading zeros (so minimal), hence at most as long as the modulus.
#[verifier::external_body]
fn rr_mod_n(n_be: &[u8], bits: u64) -> (r: Vec<u8>)
    requires
        n_be@.len() >= 1,
        n_be@[0] != 0,
    ensures
        r@.len() >= 1,
        r@.len() <= n_be@.len(),
        r@.len() == 1 || r@[0] != 0,
        be_val(r@) == (pow2((2 * bits) as nat) as int) % be_val(n_be@),
{
    let n = BigUint::from_bytes_be(n_be);
    let r1 = BigUint::from(1u32) << (bits as usize);
    let rr = (&r1 * &r1) % &n;
    let out = rr.to_bytes_be();
    if out.is_empty() { vec![0] } else { out }
}

/// Relies on rsa's PKCS#1 v1.5 signing with SHA-256 over the key in
/// the PEM: the v1.5 signature value is deterministic in key and
/// message (the randomness only blinds the computation), and it is
/// exactly as long as the modulus.
#[verifier::external_body]
fn rsa_sign_pkcs1v15_sha256(pem: &str, msg: &[u8]) -> (r: Result<Vec<u8>, FlashError>)
    ensures
        !rsa_pem_parses(pem@) ==> r is Err,
        r matches Ok(sig) ==> sig@ == rsa_sig_of(pem@, msg@) && sig@.len() == modulus_of(
            pem@).len(),
        r matches Err(e) ==> e is AvbError,
{
    let key = rsa::RsaPrivateKey::from_pkcs1_pem(pem)
        .or_else(|_| rsa::RsaPrivateKey::from_pkcs8_pem(pem))
        .map_err(|e| FlashError::AvbError(format!("parse rsa key failed: {e}")))?;
    let sk = rsa::pkcs1v15::SigningKey::<sha2::Sha256>::new(key);
    let mut rng = rand::rngs::OsRng;
    match rsa::signature::RandomizedSigner::try_sign_with_rng(&sk, &mut rng, msg) {
        Ok(sig) => Ok(rsa::signature::SignatureEncoding::to_vec(&sig)),
        Err(e) => Err(FlashError::AvbError(format!("signing failed: {e}"))),
    }
}

// ---------------------------------------------------------------------------
// Public key blob.

/// Bit length of one byte.
pub open spec fn bitlen8(b: u8) -> int {
    if b >= 128 { 8 } else if b >= 64 { 7 } else if b >= 32 { 6 } else if b >= 16 { 5 }
    else if b >= 8 { 4 } else if b >= 4 { 3 } else if b >= 2 { 2 } else if b >= 1 { 1 }
    else { 0 }
}

/// Bit length of a big-endian modulus without leading zeros.
pub open spec fn modulus_bits(n_be: Seq<u8>) -> int {
    8 * (n_be.len() - 1) + bitlen8(n_be[0])
}

/// The low 32-bit word of a big-endian number.
pub open spec fn low32_of(n_be: Seq<u8>) -> int {
    let k = n_be.len() as int;
    let b0: int = if k >= 4 { n_be[k - 4] as int } else { 0 };
    let b1: int = if k >= 3 { n_be[k - 3] as int } else { 0 };
    let b2: int = if k >= 2 { n_be[k - 2] as int } else { 0 };
    let b3: int = if k >= 1 { n_be[k - 1] as int } else { 0 };
    b0 * 0x1000000 + b1 * 0x10000 + b2 * 0x100 + b3
}

/// Android's public key blob layout: bit length, negated Montgomery
/// inverse of the low modulus word, modulus, then `R^2 mod n`
/// left-padded to the modulus width.
pub open spec fn pubkey_blob_spec(n_be: Seq<u8>, rr_be: Seq<u8>, inv: int) -> Seq<u8> {
    be32_spec(modulus_bits(n_be)) + be32_spec(inv) + n_be + zeros(
        n_be.len() - rr_be.len()) + rr_be
}

/// The blob is the layout for these modulus and remainder bytes, with
/// an inverse word that satisfies the Montgomery law: for an odd low
/// modulus word `n0`, `n0 * inv == -1 modulo 2^32` (which pins `inv`),
/// and zero for an even one.
pub open spec fn blob_inv_witness(v: Seq<u8>, n_be: Seq<u8>, rr_be: Seq<u8>, inv: int) -> bool {
    &&& v == pubkey_blob_spec(n_be, rr_be, inv)
    &&& 0 <= inv < 0x1_0000_0000
    &&& low32_of(n_be) % 2 == 1 ==> (low32_of(n_be) * inv) % 0x1_0000_0000 == 0xFFFF_FFFF
    &&& low32_of(n_be) % 2 == 0 ==> inv == 0
}

/// The blob for these modulus and remainder bytes.
pub open spec fn pubkey_blob_ok(v: Seq<u8>, n_be: Seq<u8>, rr_be: Seq<u8>) -> bool {
    exists|inv: int| #[trigger] blob_inv_witness(v, n_be, rr_be, inv)
}

/// What `rr_mod_n` guarantees of the remainder bytes for a modulus:
/// minimal big-endian encoding of `(2^bits)^2 mod n`.
pub open spec fn rr_shape(n_be: Seq<u8>, rr_be: Seq<u8>) -> bool {
    &&& 1 <= rr_be.len() <= n_be.len()
    &&& rr_be.len() == 1 || rr_be[0] != 0
    &&& be_val(rr_be) == (pow2((2 * modulus_bits(n_be)) as nat) as int) % be_val(n_be)
}

/// Bit length of one byte.
fn bit_length(b: u8) -> (r: u32)
    ensures
        r as int == bitlen8(b),
{
    if b >= 128 { 8 } else if b >= 64 { 7 } else if b >= 32 { 6 } else if b >= 16 { 5 }
    else if b >= 8 { 4 } else if b >= 4 { 3 } else if b >= 2 { 2 } else if b >= 1 { 1 }
    else { 0 }
}

/// The low 32-bit word of a big-endian number.
fn low32_be(n_be: &[u8]) -> (r: u32)
    requires
        n_be@.len() >= 1,
    ensures
        r as int == low32_of(n_be@),
{
    let k = n_be.len();
    let b0: u32 = if k >= 4 { n_be[k - 4] as u32 } else { 0 };
    let b1: u32 = if k >= 3 { n_be[k - 3] as u32 } else { 0 };
    let b2: u32 = if k >= 2 { n_be[k - 2] as u32 } else { 0 };
    let b3: u32 = n_be[k - 1] as u32;
    b0 * 0x1000000 + b1 * 0x10000 + b2 * 0x100 + b3
}

/// Build the Android public-key blob for a modulus and its Montgomery
/// remainder, both as big-endian bytes.
///
/// Succeeds exactly on byte strings of the accepted shape, and the
/// output is the exact layout for these bytes: bit length, the
/// inverse word pinned by the Montgomery law, the modulus, and the
/// remainder left-padded to the modulus width.
pub fn build_public_key_blob(n_be: &Vec<u8>, rr_be: &Vec<u8>) -> (r: Result<
    Vec<u8>,
    FlashError,
>)
    ensures
        r is Ok <==> (1 <= n_be@.len() <= 0x10_0000 && n_be@[0] != 0 && 1 <= rr_be@.len()
            <= n_be@.len()),
        r matches Ok(v) ==> pubkey_blob_ok(v@, n_be@, rr_be@),
        r matches Err(e) ==> e is AvbError,
{
    if n_be.len() < 1 || n_be.len() > 0x10_0000 || n_be[0] == 0 || rr_be.len() < 1
        || rr_be.len() > n_be.len() {
        return Err(FlashError::AvbError(
            "modulus or remainder bytes of unusable shape".to_owned(),
        ));
    }
    let bits: u32 = 8 * (n_be.len() as u32 - 1) + bit_length(n_be[0]);
    proof {
        assert(bits as int == modulus_bits(n_be@));
    }
    let n0 = low32_be(n_be.as_slice());
    let inv = mont_n0inv(n0);
    let mut out: Vec<u8> = Vec::new();
    push_be32(&mut out, bits);
    push_be32(&mut out, inv);
    push_bytes(&mut out, n_be.as_slice());
    let pad = n_be.len() - rr_be.len();
    push_zeros(&mut out, pad);
    push_bytes(&mut out, rr_be.as_slice());
    proof {
        assert(out@ =~= pubkey_blob_spec(n_be@, rr_be@, inv as int));
        assert(n0 as int == low32_of(n_be@));
        assert(blob_inv_witness(out@, n_be@, rr_be@, inv as int));
        assert(pubkey_blob_ok(out@, n_be@, rr_be@));
    }
    Ok(out)
}

// ---------------------------------------------------------------------------
// vbmeta layout.

/// Signing algorithm, selected from the private key's file name.
#[derive(Clone, Copy, Debug, PartialEq, Eq, Structural)]
pub enum AvbAlgorithm {
    Sha256Rsa2048,
    Sha256Rsa4096,
}

/// The algorithm type field of the vbmeta header.
pub open spec fn algo_type_spec(a: AvbAlgorithm) -> int {
    match a {
        AvbAlgorithm::Sha256Rsa2048 => 1,
        AvbAlgorithm::Sha256Rsa4096 => 2,
    }
}

/// The exact signature length of the algorithm.
pub open spec fn sig_len_spec(a: AvbAlgorithm) -> int {
    match a {
        AvbAlgorithm::Sha256Rsa2048 => 256,
        AvbAlgorithm::Sha256Rsa4096 => 512,
    }
}

/// The lowercase bytes `rsa4096`.
pub open spec fn rsa4096_needle() -> Seq<u8> {
    seq![114u8, 115u8, 97u8, 52u8, 48u8, 57u8, 54u8]
}

/// The lowercase bytes `begin public key`.
pub open spec fn public_key_needle() -> Seq<u8> {
    seq![98u8, 101u8, 103u8, 105u8, 110u8, 32u8, 112u8, 117u8, 98u8, 108u8, 105u8, 99u8,
        32u8, 107u8, 101u8, 121u8]
}

/// Which algorithm a key file name selects: `SHA256_RSA4096` when the
/// lowercased name contains `rsa4096`, else `SHA256_RSA2048`.
pub fn algorithm_for_key_name(name: &str) -> (r: AvbAlgorithm)
    ensures
        r == (if crate::strutil::has_sub(
            vstd::utf8::encode_utf8(crate::strutil::lower_of(name@)),
            rsa4096_needle(),
        ) {
            AvbAlgorithm::Sha256Rsa4096
        } else {
            AvbAlgorithm::Sha256Rsa2048
        }),
{
    let lower = crate::strutil::to_lowercase(name);
    let needle = rsa4096_str();
    let ghost nb = vstd::utf8::encode_utf8(needle@);
    proof {
        lemma_rsa4096_bytes();
    }
    if crate::strutil::contains_sub(lower.as_str().as_bytes(), needle.as_str().as_bytes()) {
        AvbAlgorithm::Sha256Rsa4096
    } else {
        AvbAlgorithm::Sha256Rsa2048
    }
}

/// The literal needle as an owned string.
fn rsa4096_str() -> (r: String)
    ensures
        r@ == "rsa4096"@,
{
    "rsa4096".to_owned()
}

/// The UTF-8 bytes of the needle are its ASCII codes.
proof fn lemma_rsa4096_bytes()
    ensures
        vstd::utf8::encode_utf8("rsa4096"@) =~= rsa4096_needle(),
{
    reveal_strlit("rsa4096");
    let chars = "rsa4096"@;
    assert(vstd::utf8::is_ascii_chars(chars));
    vstd::utf8::is_ascii_chars_encode_utf8(chars);
    assert(vstd::utf8::encode_utf8(chars) =~= rsa4096_needle());
}

/// The UTF-8 bytes of the PEM marker are its ASCII codes.
proof fn lemma_public_key_bytes()
    ensures
        vstd::utf8::encode_utf8("begin public key"@) =~= public_key_needle(),
{
    reveal_strlit("begin public key");
    let chars = "begin public key"@;
    assert(vstd::utf8::is_ascii_chars(chars));
    vstd::utf8::is_ascii_chars_encode_utf8(chars);
    assert(vstd::utf8::encode_utf8(chars) =~= public_key_needle());
}

/// `n` rounded up to a multiple of eight.
pub open spec fn align8(n: int) -> int {
    align_up_spec(n, 8)
}

/// `n` rounded up to a multiple of 64.
pub open spec fn align64(n: int) -> int {
    align_up_spec(n, 64)
}

/// The bytes `sha256` padded with NULs to 32 bytes.
pub open spec fn sha256_name_block() -> Seq<u8> {
    seq![115u8, 104u8, 97u8, 50u8, 53u8, 54u8] + zeros(26)
}

/// An AVB hash descriptor: tag two, its payload length, the image
/// size, the algorithm name, the three length fields, reserved
/// zeros, then the partition name and the SHA-256 digest, padded to
/// an eight-byte boundary.
#[verifier::opaque]
pub open spec fn hash_descriptor_spec(name: Seq<u8>, img_len: int, digest: Seq<u8>) -> Seq<
    u8,
> {
    let nf = align8(148 + name.len() as int);
    be64_spec(2) + be64_spec(nf) + be64_spec(img_len) + sha256_name_block() + be32_spec(
        name.len() as int) + be32_spec(0) + be32_spec(32) + be32_spec(0) + zeros(60) + name
        + digest + zeros(nf - (148 + name.len() as int))
}

/// The bytes `AVB0`.
pub open spec fn avb0_magic() -> Seq<u8> {
    seq![0x41u8, 0x56u8, 0x42u8, 0x30u8]
}

/// The bytes `AVBf`.
pub open spec fn avbf_magic() -> Seq<u8> {
    seq![0x41u8, 0x56u8, 0x42u8, 0x66u8]
}

/// The release string `rua_avb 1.0` with its NUL terminator.
pub open spec fn release_string_bytes() -> Seq<u8> {
    seq![114u8, 117u8, 97u8, 95u8, 97u8, 118u8, 98u8, 32u8, 49u8, 46u8, 48u8, 0u8]
}

/// The 256-byte vbmeta header.
#[verifier::opaque]
pub open spec fn vbmeta_header_spec(
    auth_size: int,
    aux_size: int,
    algo_type: int,
    sig_len: int,
    pk_size: int,
    d_off: int,
    d_size: int,
) -> Seq<u8> {
    avb0_magic() + be32_spec(1) + be32_spec(0) + be64_spec(auth_size) + be64_spec(aux_size)
        + be32_spec(algo_type) + be64_spec(0) + be64_spec(32) + be64_spec(32) + be64_spec(
        sig_len) + be64_spec(0) + be64_spec(pk_size) + be64_spec(0) + be64_spec(0)
        + be64_spec(d_off) + be64_spec(d_size) + be64_spec(0) + be32_spec(0) + zeros(4)
        + release_string_bytes() + zeros(116)
}

/// The auxiliary block: public key blob, descriptor at an
/// eight-aligned offset, padded to a 64-byte boundary.
#[verifier::opaque]
pub open spec fn aux_block_spec(blob: Seq<u8>, desc: Seq<u8>) -> Seq<u8> {
    let pre = blob + zeros(align8(blob.len() as int) - blob.len()) + desc;
    pre + zeros(align64(pre.len() as int) - pre.len())
}

/// The authentication block: digest, signature, padded to a 64-byte
/// boundary.
#[verifier::opaque]
pub open spec fn auth_block_spec(digest: Seq<u8>, sig: Seq<u8>) -> Seq<u8> {
    digest + sig + zeros(align64(32 + sig.len() as int) - (32 + sig.len()))
}

/// The 64-byte AVB footer.
#[verifier::opaque]
pub open spec fn footer_spec(orig: int, vb_size: int) -> Seq<u8> {
    avbf_magic() + be32_spec(1) + be32_spec(0) + be64_spec(orig) + be64_spec(orig)
        + be64_spec(vb_size) + zeros(28)
}

/// The whole signed image: the input image, the vbmeta block, zero
/// padding, and the footer in the last 64 bytes of the partition.
#[verifier::opaque]
pub open spec fn signed_image_spec(
    image: Seq<u8>,
    name: Seq<u8>,
    psize: int,
    algo: AvbAlgorithm,
    blob: Seq<u8>,
    sig: Seq<u8>,
) -> Seq<u8> {
    let desc = hash_descriptor_spec(name, image.len() as int, sha256_of(image));
    let aux = aux_block_spec(blob, desc);
    let header = vbmeta_header_spec(align64(32 + sig_len_spec(algo)), aux.len() as int,
        algo_type_spec(algo), sig_len_spec(algo), blob.len() as int, align8(
            blob.len() as int), desc.len() as int);
    let auth = auth_block_spec(sha256_of(header + aux), sig);
    let vbmeta = header + auth + aux;
    image + vbmeta + zeros(psize - image.len() - vbmeta.len() - 64) + footer_spec(
        image.len() as int, vbmeta.len() as int)
}

// ---------------------------------------------------------------------------
// Builders.

/// Append the 32-byte algorithm name block `sha256`.
fn push_sha256_name(out: &mut Vec<u8>)
    ensures
        final(out)@ == old(out)@ + sha256_name_block(),
{
    let ghost pre = out@;
    out.push(115);
    out.push(104);
    out.push(97);
    out.push(50);
    out.push(53);
    out.push(54);
    proof {
        assert(out@ =~= pre + seq![115u8, 104u8, 97u8, 50u8, 53u8, 54u8]);
    }
    push_zeros(out, 26);
    proof {
        assert(out@ =~= pre + sha256_name_block());
    }
}

/// Build the hash descriptor for an image: digest it with SHA-256 and
/// lay the descriptor out as [`hash_descriptor_spec`]; returns the
/// descriptor and the digest. Fails only on a partition name whose
/// length does not fit the 32-bit name-length field.
#[verifier::rlimit(100)]
pub fn build_hash_descriptor(partition_name: &str, image: &[u8]) -> (r: Result<
    (Vec<u8>, Vec<u8>),
    FlashError,
>)
    ensures
        r is Ok <==> vstd::utf8::encode_utf8(partition_name@).len() <= 0xFFFF_FFFF,
        r matches Ok(p) ==> p.1@ == sha256_of(image@) && p.0@ == hash_descriptor_spec(
            vstd::utf8::encode_utf8(partition_name@), image@.len() as int, sha256_of(
                image@)),
        r matches Err(e) ==> e is AvbError,
{
    proof {
        reveal(hash_descriptor_spec);
    }
    let name = partition_name.as_bytes();
    if name.len() > 0xFFFF_FFFFusize {
        return Err(FlashError::AvbError("partition name too long".to_owned()));
    }
    let digest = sha256_digest(image);
    let ghost nb = vstd::utf8::encode_utf8(partition_name@);
    let nf: u64 = ((148u64 + name.len() as u64 + 7) / 8) * 8;
    proof {
        assert(nf as int == align8(148 + nb.len() as int));
        lemma_align_up(148 + nb.len() as int, 8);
    }
    let mut out: Vec<u8> = Vec::new();
    push_be64(&mut out, 2);
    push_be64(&mut out, nf);
    push_be64(&mut out, image.len() as u64);
    push_sha256_name(&mut out);
    push_be32(&mut out, name.len() as u32);
    push_be32(&mut out, 0);
    push_be32(&mut out, 32);
    push_be32(&mut out, 0);
    push_zeros(&mut out, 60);
    push_bytes(&mut out, name);
    push_bytes(&mut out, digest.as_slice());
    let pad_u: u64 = nf - (148u64 + name.len() as u64);
    proof {
        assert(pad_u < 8);
        assert(pad_u as int == nf as int - (148 + nb.len() as int));
    }
    push_zeros(&mut out, pad_u as usize);
    proof {
        assert(out@ =~= hash_descriptor_spec(nb, image@.len() as int, sha256_of(image@)));
    }
    Ok((out, digest))
}

/// Append the release string `rua_avb 1.0` and its NUL.
fn push_release_string(out: &mut Vec<u8>)
    ensures
        final(out)@ == old(out)@ + release_string_bytes(),
{
    let ghost pre = out@;
    out.push(114);
    out.push(117);
    out.push(97);
    out.push(95);
    out.push(97);
    out.push(118);
    out.push(98);
    out.push(32);
    out.push(49);
    out.push(46);
    out.push(48);
    out.push(0);
    proof {
        assert(out@ =~= pre + release_string_bytes());
    }
}

/// The signature length of the algorithm.
pub fn sig_len_of(algo: AvbAlgorithm) -> (r: usize)
    ensures
        r as int == sig_len_spec(algo),
{
    match algo {
        AvbAlgorithm::Sha256Rsa2048 => 256,
        AvbAlgorithm::Sha256Rsa4096 => 512,
    }
}

/// Build the 256-byte vbmeta header.
#[verifier::rlimit(100)]
fn build_vbmeta_header(
    auth_size: u64,
    aux_size: u64,
    algo: AvbAlgorithm,
    pk_size: u64,
    d_off: u64,
    d_size: u64,
) -> (r: Vec<u8>)
    ensures
        r@ == vbmeta_header_spec(auth_size as int, aux_size as int, algo_type_spec(algo),
            sig_len_spec(algo), pk_size as int, d_off as int, d_size as int),
        r@.len() == 256,
{
    proof {
        reveal(vbmeta_header_spec);
        reveal(be32_spec);
        reveal(be64_spec);
    }
    let algo_type: u32 = match algo {
        AvbAlgorithm::Sha256Rsa2048 => 1,
        AvbAlgorithm::Sha256Rsa4096 => 2,
    };
    let sig_len = sig_len_of(algo);
    let mut out: Vec<u8> = Vec::new();
    out.push(0x41);
    out.push(0x56);
    out.push(0x42);
    out.push(0x30);
    proof {
        assert(out@ =~= avb0_magic());
    }
    push_be32(&mut out, 1);
    push_be32(&mut out, 0);
    push_be64(&mut out, auth_size);
    push_be64(&mut out, aux_size);
    push_be32(&mut out, algo_type);
    push_be64(&mut out, 0);
    push_be64(&mut out, 32);
    push_be64(&mut out, 32);
    push_be64(&mut out, sig_len as u64);
    push_be64(&mut out, 0);
    push_be64(&mut out, pk_size);
    push_be64(&mut out, 0);
    push_be64(&mut out, 0);
    push_be64(&mut out, d_off);
    push_be64(&mut out, d_size);
    push_be64(&mut out, 0);
    push_be32(&mut out, 0);
    push_zeros(&mut out, 4);
    push_release_string(&mut out);
    push_zeros(&mut out, 116);
    proof {
        assert(out@ =~= vbmeta_header_spec(auth_size as int, aux_size as int, algo_type_spec(
            algo), sig_len_spec(algo), pk_size as int, d_off as int, d_size as int));
    }
    out
}

/// The bytes that are signed: the vbmeta header followed by the
/// auxiliary block, both determined by the image, partition name,
/// algorithm and public-key blob.
pub open spec fn signing_input_spec(
    image: Seq<u8>,
    name: Seq<u8>,
    algo: AvbAlgorithm,
    blob: Seq<u8>,
) -> Seq<u8> {
    let desc = hash_descriptor_spec(name, image.len() as int, sha256_of(image));
    let aux = aux_block_spec(blob, desc);
    let header = vbmeta_header_spec(align64(32 + sig_len_spec(algo)), aux.len() as int,
        algo_type_spec(algo), sig_len_spec(algo), blob.len() as int, align8(
            blob.len() as int), desc.len() as int);
    header + aux
}

/// One witness assignment for a signed image: the blob carries the
/// key's own modulus and its Montgomery remainder, and the embedded
/// signature is the key's PKCS#1 v1.5 signature over the header and
/// auxiliary block.
pub open spec fn signed_witness(
    v: Seq<u8>,
    image: Seq<u8>,
    name: Seq<u8>,
    psize: int,
    algo: AvbAlgorithm,
    pem: Seq<char>,
    rr_be: Seq<u8>,
    blob: Seq<u8>,
) -> bool {
    let n_be = modulus_of(pem);
    let sig = rsa_sig_of(pem, signing_input_spec(image, name, algo, blob));
    &&& rr_shape(n_be, rr_be)
    &&& pubkey_blob_ok(blob, n_be, rr_be)
    &&& sig.len() == sig_len_spec(algo)
    &&& v == signed_image_spec(image, name, psize, algo, blob, sig)
}

/// A signed partition image for these inputs: the layout of
/// [`signed_image_spec`], with the public-key blob built from the
/// key's modulus and the signature produced by that key over the
/// header and auxiliary block.
pub open spec fn is_signed_image(
    v: Seq<u8>,
    image: Seq<u8>,
    name: Seq<u8>,
    psize: int,
    algo: AvbAlgorithm,
    pem: Seq<char>,
) -> bool {
    exists|rr_be: Seq<u8>, blob: Seq<u8>|
        #[trigger] signed_witness(v, image, name, psize, algo, pem, rr_be, blob)
}

/// Required partition size for an image: the image plus a two-MiB
/// slack, rounded up to a MiB boundary.
pub fn compute_partition_size(img_len: u64) -> (r: u64)
    requires
        img_len <= 0xFFFF_FFFF_FFC0_0000,
    ensures
        r % 0x100000 == 0,
        img_len + 0x200000 <= r < img_len + 0x300000,
{
    proof {
        lemma_align_up(img_len as int + 0x200000, 0x100000);
    }
    ((img_len + 0x200000 + 0xFFFFF) / 0x100000) * 0x100000
}

/// Sign an image and append its vbmeta block and AVB footer.
///
/// The result fills the partition exactly: the image bytes, the
/// vbmeta block at the original image size (opening `AVB0`), zero
/// padding, and the 64-byte footer (opening `AVBf`, recording the
/// original size twice and the vbmeta size) in the last 64 bytes.
/// Rejected inputs: an image larger than the partition, a public-key
/// PEM, a PEM the RSA crate does not accept, and sizes that leave no
/// room for the vbmeta block.
/// The assembled output has the signed-image layout and the footer
/// fields at their documented offsets.
#[verifier::rlimit(100)]
proof fn lemma_final_layout(
    out: Seq<u8>,
    image: Seq<u8>,
    nb: Seq<u8>,
    psize: int,
    algo: AvbAlgorithm,
    pem: Seq<char>,
    rr_be: Seq<u8>,
    blob: Seq<u8>,
    desc: Seq<u8>,
    header: Seq<u8>,
    auth: Seq<u8>,
    aux: Seq<u8>,
    sig: Seq<u8>,
    gap: int,
    vbmeta_len: int,
)
    requires
        desc == hash_descriptor_spec(nb, image.len() as int, sha256_of(image)),
        aux == aux_block_spec(blob, desc),
        header == vbmeta_header_spec(align64(32 + sig_len_spec(algo)), aux.len() as int,
            algo_type_spec(algo), sig_len_spec(algo), blob.len() as int, align8(
                blob.len() as int), desc.len() as int),
        auth == auth_block_spec(sha256_of(header + aux), sig),
        header.len() == 256,
        vbmeta_len == 256 + auth.len() + aux.len(),
        gap == psize - image.len() - vbmeta_len - 64,
        gap >= 0,
        out == image + header + auth + aux + zeros(gap) + avbf_magic() + be32_spec(1)
            + be32_spec(0) + be64_spec(image.len() as int) + be64_spec(image.len() as int)
            + be64_spec(vbmeta_len) + zeros(28),
        sig.len() == sig_len_spec(algo),
        sig == rsa_sig_of(pem, signing_input_spec(image, nb, algo, blob)),
        rr_shape(modulus_of(pem), rr_be),
        pubkey_blob_ok(blob, modulus_of(pem), rr_be),
    ensures
        out == signed_image_spec(image, nb, psize, algo, blob, sig),
        out.len() == psize,
        is_signed_image(out, image, nb, psize, algo, pem),
        out.subrange(0, image.len() as int) == image,
        out.subrange(image.len() as int, image.len() as int + 4) == avb0_magic(),
        out.subrange(psize - 64, psize - 60) == avbf_magic(),
        out.subrange(psize - 52, psize - 44) == be64_spec(image.len() as int),
        out.subrange(psize - 44, psize - 36) == be64_spec(image.len() as int),
{
    reveal(signed_image_spec);
    reveal(footer_spec);
    reveal(vbmeta_header_spec);
    reveal(be32_spec);
    reveal(be64_spec);
    let origi = image.len() as int;
    let vbmeta = header + auth + aux;
    let footer = footer_spec(origi, vbmeta_len);
    assert(out =~= image + vbmeta + zeros(gap) + footer);
    assert(signed_image_spec(image, nb, psize, algo, blob, sig) == image + vbmeta + zeros(
        psize - image.len() - vbmeta.len() - 64) + footer_spec(origi, vbmeta.len() as int));
    assert(out == signed_image_spec(image, nb, psize, algo, blob, sig));
    assert(out.len() == psize);
    assert(signing_input_spec(image, nb, algo, blob) == header + aux);
    assert(is_signed_image(out, image, nb, psize, algo, pem)) by {
        assert(signed_witness(out, image, nb, psize, algo, pem, rr_be, blob));
    }
    assert(out.subrange(0, origi) =~= image);
    assert(out.subrange(origi, origi + 4) =~= avb0_magic());
    assert(out.subrange(psize - 64, psize - 60) =~= avbf_magic());
    assert(out.subrange(psize - 52, psize - 44) =~= be64_spec(origi));
    assert(out.subrange(psize - 44, psize - 36) =~= be64_spec(origi));
}

#[verifier::rlimit(100)]
pub fn add_hash_footer(
    image: &[u8],
    partition_name: &str,
    partition_size_bytes: u64,
    key_pem: &str,
    algorithm: AvbAlgorithm,
) -> (r: Result<Vec<u8>, FlashError>)
    ensures
        r matches Ok(v) ==> is_signed_image(v@, image@, vstd::utf8::encode_utf8(
            partition_name@), partition_size_bytes as int, algorithm, key_pem@),
        r matches Ok(v) ==> {
            let orig = image@.len() as int;
            let psize = partition_size_bytes as int;
            &&& v@.len() == psize
            &&& orig + 64 <= psize
            &&& v@.subrange(0, orig) == image@
            &&& v@.subrange(orig, orig + 4) == avb0_magic()
            &&& v@.subrange(psize - 64, psize - 60) == avbf_magic()
            &&& v@.subrange(psize - 52, psize - 44) == be64_spec(orig)
            &&& v@.subrange(psize - 44, psize - 36) == be64_spec(orig)
        },
        r is Ok ==> !crate::strutil::has_sub(vstd::utf8::encode_utf8(
            crate::strutil::lower_of(key_pem@)), public_key_needle()) && rsa_pem_parses(
            key_pem@) && image@.len() <= partition_size_bytes,
        r matches Err(e) ==> e is AvbError,
{
    if partition_size_bytes > usize::MAX as u64 {
        return Err(FlashError::AvbError("partition size too large".to_owned()));
    }
    if image.len() as u64 > partition_size_bytes {
        return Err(FlashError::AvbError("image larger than partition size".to_owned()));
    }
    let lower_pem = crate::strutil::to_lowercase(key_pem);
    let marker = public_key_marker_str();
    proof {
        lemma_public_key_bytes();
    }
    if crate::strutil::contains_sub(lower_pem.as_str().as_bytes(),
        marker.as_str().as_bytes()) {
        return Err(FlashError::AvbError("invalid key: public key not allowed".to_owned()));
    }
    let n_be = match key_modulus_be(key_pem) {
        Ok(n) => n,
        Err(e) => {
            return Err(e);
        }
    };
    add_hash_footer_signed(image, partition_name, partition_size_bytes, key_pem, algorithm,
        &n_be)
}

/// Sign with the key's modulus already extracted; the layout contract
/// of [`add_hash_footer`].
#[verifier::rlimit(100)]
fn add_hash_footer_signed(
    image: &[u8],
    partition_name: &str,
    partition_size_bytes: u64,
    key_pem: &str,
    algorithm: AvbAlgorithm,
    n_be: &Vec<u8>,
) -> (r: Result<Vec<u8>, FlashError>)
    requires
        image@.len() <= partition_size_bytes,
        partition_size_bytes <= usize::MAX,
        n_be@ == modulus_of(key_pem@),
        n_be@.len() >= 1,
        n_be@[0] != 0,
    ensures
        r matches Ok(v) ==> is_signed_image(v@, image@, vstd::utf8::encode_utf8(
            partition_name@), partition_size_bytes as int, algorithm, key_pem@),
        r matches Ok(v) ==> {
            let orig = image@.len() as int;
            let psize = partition_size_bytes as int;
            &&& v@.len() == psize
            &&& orig + 64 <= psize
            &&& v@.subrange(0, orig) == image@
            &&& v@.subrange(orig, orig + 4) == avb0_magic()
            &&& v@.subrange(psize - 64, psize - 60) == avbf_magic()
            &&& v@.subrange(psize - 52, psize - 44) == be64_spec(orig)
            &&& v@.subrange(psize - 44, psize - 36) == be64_spec(orig)
        },
        r matches Err(e) ==> e is AvbError,
{
    let orig = image.len();
    if n_be.len() > 0x10_0000 {
        return Err(FlashError::AvbError("modulus too large".to_owned()));
    }
    let bits: u32 = 8 * (n_be.len() as u32 - 1) + bit_length(n_be[0]);
    proof {
        assert(bits as int == modulus_bits(n_be@));
    }
    let rr_be = rr_mod_n(n_be.as_slice(), bits as u64);
    let blob = match build_public_key_blob(n_be, &rr_be) {
        Ok(b) => b,
        Err(e) => {
            return Err(e);
        }
    };
    if blob.len() > 0x100_0000 {
        return Err(FlashError::AvbError("public key blob too large".to_owned()));
    }
    let (desc, _digest) = match build_hash_descriptor(partition_name, image) {
        Ok(p) => p,
        Err(e) => {
            return Err(e);
        }
    };
    if desc.len() > 0x100_0000 {
        return Err(FlashError::AvbError("descriptor too large".to_owned()));
    }
    let ghost nb = vstd::utf8::encode_utf8(partition_name@);
    // Auxiliary block: blob, aligned descriptor, 64-byte padding.
    let d_off: usize = ((blob.len() + 7) / 8) * 8;
    proof {
        lemma_align_up(blob@.len() as int, 8);
    }
    let aux = build_aux_block(&blob, &desc);
    // Header.
    let sig_len = sig_len_of(algorithm);
    let auth_size: u64 = (((32 + sig_len as u64) + 63) / 64) * 64;
    proof {
        lemma_align_up(32 + sig_len as int, 64);
        assert(auth_size as int == align64(32 + sig_len_spec(algorithm)));
    }
    let header = build_vbmeta_header(auth_size, aux.len() as u64, algorithm,
        blob.len() as u64, d_off as u64, desc.len() as u64);
    // Sign the header and auxiliary block.
    let mut sign_input: Vec<u8> = Vec::new();
    push_bytes(&mut sign_input, header.as_slice());
    push_bytes(&mut sign_input, aux.as_slice());
    let vb_digest = sha256_digest(sign_input.as_slice());
    let signature = match rsa_sign_pkcs1v15_sha256(key_pem, sign_input.as_slice()) {
        Ok(s) => s,
        Err(e) => {
            return Err(e);
        }
    };
    if signature.len() != sig_len {
        return Err(FlashError::AvbError("signature length mismatch".to_owned()));
    }
    // Authentication block.
    let auth = build_auth_block(&vb_digest, &signature);
    proof {
        assert(auth@ == auth_block_spec(sha256_of(header@ + aux@), signature@));
    }
    // Sizes.
    if aux.len() > 0x400_0000 || auth.len() > 0x10_0000 {
        return Err(FlashError::AvbError("vbmeta block too large".to_owned()));
    }
    let vbmeta_len: u64 = 256 + auth.len() as u64 + aux.len() as u64;
    if vbmeta_len + 64 > partition_size_bytes - orig as u64 {
        return Err(FlashError::AvbError(
            "signed image would exceed partition size".to_owned(),
        ));
    }
    let total: u64 = orig as u64 + vbmeta_len + 64;
    // Assemble the output.
    let gap: usize = (partition_size_bytes - total) as usize;
    let out = assemble_output(image, &header, &auth, &aux, gap, vbmeta_len);
    proof {
        let psize = partition_size_bytes as int;
        assert(sign_input@ == signing_input_spec(image@, nb, algorithm, blob@));
        lemma_final_layout(out@, image@, nb, psize, algorithm, key_pem@, rr_be@, blob@,
            desc@, header@, auth@, aux@, signature@, gap as int, vbmeta_len as int);
    }
    Ok(out)
}

/// Build the auxiliary block: the blob, the descriptor at an
/// eight-aligned offset, padded to a 64-byte boundary.
#[verifier::rlimit(100)]
fn build_aux_block(blob: &Vec<u8>, desc: &Vec<u8>) -> (r: Vec<u8>)
    requires
        blob@.len() <= 0x100_0000,
        desc@.len() <= 0x100_0000,
    ensures
        r@ == aux_block_spec(blob@, desc@),
{
    proof {
        reveal(aux_block_spec);
    }
    let d_off: usize = ((blob.len() + 7) / 8) * 8;
    let mut aux: Vec<u8> = Vec::new();
    push_bytes(&mut aux, blob.as_slice());
    proof {
        lemma_align_up(blob@.len() as int, 8);
        assert(d_off as int == align8(blob@.len() as int));
    }
    push_zeros(&mut aux, d_off - blob.len());
    push_bytes(&mut aux, desc.as_slice());
    let ghost aux_pre = aux@;
    let pad64: usize = (64 - (aux.len() % 64)) % 64;
    proof {
        lemma_align_up(aux_pre.len() as int, 64);
        assert(pad64 as int == align64(aux_pre.len() as int) - aux_pre.len());
    }
    push_zeros(&mut aux, pad64);
    proof {
        assert(aux@ =~= aux_block_spec(blob@, desc@));
    }
    aux
}

/// Build the authentication block: digest, signature, padded to a
/// 64-byte boundary.
#[verifier::rlimit(100)]
fn build_auth_block(digest: &Vec<u8>, signature: &Vec<u8>) -> (r: Vec<u8>)
    requires
        digest@.len() == 32,
        signature@.len() <= 0x10000,
    ensures
        r@ == auth_block_spec(digest@, signature@),
{
    proof {
        reveal(auth_block_spec);
    }
    let mut auth: Vec<u8> = Vec::new();
    push_bytes(&mut auth, digest.as_slice());
    push_bytes(&mut auth, signature.as_slice());
    let ghost auth_pre = auth@;
    let apad: usize = (64 - (auth.len() % 64)) % 64;
    proof {
        lemma_align_up(auth_pre.len() as int, 64);
        assert(apad as int == align64(32 + signature@.len() as int) - (32
            + signature@.len() as int));
    }
    push_zeros(&mut auth, apad);
    proof {
        assert(auth@ =~= auth_block_spec(digest@, signature@));
    }
    auth
}

/// Concatenate the image, vbmeta parts, padding, and footer bytes.
#[verifier::rlimit(100)]
fn assemble_output(
    image: &[u8],
    header: &Vec<u8>,
    auth: &Vec<u8>,
    aux: &Vec<u8>,
    gap: usize,
    vbmeta_len: u64,
) -> (r: Vec<u8>)
    ensures
        r@ == image@ + header@ + auth@ + aux@ + zeros(gap as int) + avbf_magic()
            + be32_spec(1) + be32_spec(0) + be64_spec(image@.len() as int) + be64_spec(
            image@.len() as int) + be64_spec(vbmeta_len as int) + zeros(28),
{
    let mut out: Vec<u8> = Vec::new();
    push_bytes(&mut out, image);
    push_bytes(&mut out, header.as_slice());
    push_bytes(&mut out, auth.as_slice());
    push_bytes(&mut out, aux.as_slice());
    push_zeros(&mut out, gap);
    let ghost before_footer = out@;
    out.push(0x41);
    out.push(0x56);
    out.push(0x42);
    out.push(0x66);
    proof {
        assert(out@ =~= before_footer + avbf_magic());
    }
    push_be32(&mut out, 1);
    push_be32(&mut out, 0);
    push_be64(&mut out, image.len() as u64);
    push_be64(&mut out, image.len() as u64);
    push_be64(&mut out, vbmeta_len);
    push_zeros(&mut out, 28);
    out
}

/// The PEM marker as an owned string.
fn public_key_marker_str() -> (r: String)
    ensures
        r@ == "begin public key"@,
{
    "begin public key".to_owned()
}

} // verus!
