//! Key derivation, ring signing and ring verification.
//!
//! A ring is an ordered sequence of G1 points. A signature is an anchor
//! challenge (the challenge at position 0) and one response per position.
//! Verification walks the chain of challenges once round the ring from the
//! anchor and accepts when it closes on the anchor again.
use crate::group::{
    bytes_eq, fr_canonical, fr_mul, fr_mul_of, fr_of, fr_sub, fr_sub_of, g1_add, g1_add_of, g1_mul,
    g1_mul_of, sha256, sha256_of, G1Point, Scalar, G1_GENERATOR,
};
use crate::registry::RingSigContract;
use soroban_sdk::Env;
use vstd::prelude::*;

verus! {

/// A ring signature: the challenge at position 0 and one response per ring
/// position.
#[derive(Clone, Debug)]
pub struct RingSignature {
    pub challenge: Scalar,
    pub responses: Vec<Scalar>,
}

/// A set of derived key pairs: `ring[i]` is the public point of
/// `secret_keys[i]`.
#[derive(Clone, Debug)]
pub struct KeyRingResult {
    pub secret_keys: Vec<Scalar>,
    pub ring: Vec<G1Point>,
}

/// The encodings of a sequence of points.
pub open spec fn points_view(ring: Seq<G1Point>) -> Seq<Seq<u8>> {
    ring.map_values(|p: G1Point| p@)
}

/// The encodings of a sequence of scalars.
pub open spec fn scalars_view(s: Seq<Scalar>) -> Seq<Seq<u8>> {
    s.map_values(|x: Scalar| x@)
}

/// Thirty-two copies of one byte.
pub open spec fn pattern(b: u8) -> Seq<u8> {
    Seq::new(32, |_i: int| b)
}

/// The byte that keys the derivation of the `i`-th key pair.
pub open spec fn key_byte(i: int) -> u8 {
    (i % 256) as u8
}

/// The byte that keys the filler response at ring position `i`.
pub open spec fn response_byte(i: int) -> u8 {
    ((i % 256 + 100) % 256) as u8
}

/// The `i`-th derived secret: the pattern of its key byte hashed twice, read
/// as a scalar.
pub open spec fn derived_secret(i: int) -> Seq<u8> {
    fr_of(sha256_of(sha256_of(pattern(key_byte(i)))))
}

/// The public point of a secret: `s · G`.
pub open spec fn public_of(s: Seq<u8>) -> Seq<u8> {
    g1_mul_of(G1_GENERATOR@, s)
}

/// All ring points one after the other.
pub open spec fn concat_points(pts: Seq<Seq<u8>>) -> Seq<u8>
    decreases pts.len(),
{
    if pts.len() == 0 {
        Seq::empty()
    } else {
        concat_points(pts.drop_last()) + pts.last()
    }
}

/// The bytes every challenge is hashed over: the ring, then the message.
pub open spec fn base_of(pts: Seq<Seq<u8>>, msg: Seq<u8>) -> Seq<u8> {
    concat_points(pts) + msg
}

/// The challenge that follows commitment `x`.
pub open spec fn next_challenge(base: Seq<u8>, x: Seq<u8>) -> Seq<u8> {
    fr_of(sha256_of(base + x))
}

/// The commitment `r · G + c · pk` at one ring position.
pub open spec fn commitment(r: Seq<u8>, c: Seq<u8>, pk: Seq<u8>) -> Seq<u8> {
    g1_add_of(g1_mul_of(G1_GENERATOR@, r), g1_mul_of(pk, c))
}

/// The challenge reached after `j` positions of the verifier's walk, which
/// starts at position 0 with the anchor.
pub open spec fn verify_chain(
    base: Seq<u8>,
    pts: Seq<Seq<u8>>,
    resp: Seq<Seq<u8>>,
    anchor: Seq<u8>,
    j: nat,
) -> Seq<u8>
    decreases j,
{
    if j == 0 {
        fr_of(anchor)
    } else {
        let c = verify_chain(base, pts, resp, anchor, (j - 1) as nat);
        next_challenge(base, commitment(resp[j - 1], c, pts[j - 1]))
    }
}

/// Whether a signature verifies against a ring of points.
pub open spec fn verifies(
    msg: Seq<u8>,
    anchor: Seq<u8>,
    resp: Seq<Seq<u8>>,
    pts: Seq<Seq<u8>>,
) -> bool {
    &&& pts.len() > 0
    &&& pts.len() == resp.len()
    &&& verify_chain(base_of(pts, msg), pts, resp, anchor, pts.len()) == fr_of(anchor)
}

/// The position after `i` in a ring of `n`.
pub open spec fn succ(n: int, i: int) -> int {
    if i + 1 >= n {
        0
    } else {
        i + 1
    }
}

/// The position the signer's walk visits at step `k`, starting just after `s`.
pub open spec fn walk_pos(n: int, s: int, k: nat) -> int
    decreases k,
{
    if k == 0 {
        succ(n, s)
    } else {
        succ(n, walk_pos(n, s, (k - 1) as nat))
    }
}

/// The deterministic nonce: the pattern of 42s hashed twice.
pub open spec fn nonce() -> Seq<u8> {
    sha256_of(sha256_of(pattern(42)))
}

/// The deterministic response at a position that is not the signer's: the
/// pattern of its response byte hashed twice.
pub open spec fn filler_response(i: int) -> Seq<u8> {
    sha256_of(sha256_of(pattern(response_byte(i))))
}

/// The deterministic responses of a ring of `n`.
pub open spec fn filler_responses(n: nat) -> Seq<Seq<u8>> {
    Seq::new(n, |i: int| filler_response(i))
}

/// The challenge at position `walk_pos(n, s, k)` of the signer's walk, with
/// nonce `a` and responses `fill` at the positions that are not the signer's.
pub open spec fn sign_chain(
    base: Seq<u8>,
    pts: Seq<Seq<u8>>,
    s: int,
    k: nat,
    a: Seq<u8>,
    fill: Seq<Seq<u8>>,
) -> Seq<u8>
    decreases k,
{
    if k == 0 {
        next_challenge(base, public_of(a))
    } else {
        let p = walk_pos(pts.len() as int, s, (k - 1) as nat);
        let c = sign_chain(base, pts, s, (k - 1) as nat, a, fill);
        next_challenge(base, commitment(fill[p], c, pts[p]))
    }
}

/// `sig` is the signature of `msg` for ring `pts` by the secret `sk` of
/// position `s`, with nonce `a` and responses `fill` elsewhere.
pub open spec fn signed(
    sig: RingSignature,
    msg: Seq<u8>,
    pts: Seq<Seq<u8>>,
    s: int,
    sk: Seq<u8>,
    a: Seq<u8>,
    fill: Seq<Seq<u8>>,
) -> bool {
    let n = pts.len() as int;
    let eff = effective_ring(pts, s, sk);
    let base = base_of(eff, msg);
    &&& sig.responses@.len() == n
    &&& sig.challenge@ == sign_chain(base, eff, s, (n - 1 - s) as nat, a, fill)
    &&& sig.responses@[s]@ == fr_sub_of(a, fr_mul_of(sign_chain(base, eff, s, (n - 1) as nat, a, fill), sk))
    &&& forall|i: int| 0 <= i < n && i != s ==> #[trigger] sig.responses@[i]@ == fill[i]
}

/// The ring the signer works on: the given one with its own position set to
/// its public point.
pub open spec fn effective_ring(pts: Seq<Seq<u8>>, s: int, sk: Seq<u8>) -> Seq<Seq<u8>> {
    pts.update(s, public_of(sk))
}

/// Where the signer's walk stands after `k` steps, for `k < n`.
pub proof fn lemma_walk_pos(n: int, s: int, k: nat)
    requires
        0 <= s < n,
        k < n,
    ensures
        walk_pos(n, s, k) == if s + 1 + k < n { s + 1 + k } else { s + 1 + k - n },
    decreases k,
{
    if k > 0 {
        lemma_walk_pos(n, s, (k - 1) as nat);
    }
}

/// `r` holds the first `count` derived key pairs, in order.
pub open spec fn derived_key_set(r: KeyRingResult, count: nat) -> bool {
    &&& r.secret_keys@.len() == count
    &&& r.ring@.len() == count
    &&& forall|i: int|
        0 <= i < count ==> {
            &&& #[trigger] r.secret_keys@[i]@ == derived_secret(i)
            &&& r.ring@[i]@ == public_of(derived_secret(i))
        }
}

/// Key derivation is deterministic: any two key sets derived for the same
/// size hold the same secrets and the same public points.
pub proof fn lemma_create_keys_deterministic(ring_size: u32, r1: KeyRingResult, r2: KeyRingResult)
    requires
        derived_key_set(r1, ring_size as nat),
        derived_key_set(r2, ring_size as nat),
    ensures
        scalars_view(r1.secret_keys@) == scalars_view(r2.secret_keys@),
        points_view(r1.ring@) == points_view(r2.ring@),
{
    assert(scalars_view(r1.secret_keys@) =~= scalars_view(r2.secret_keys@));
    assert forall|i: int| 0 <= i < ring_size implies r1.ring@[i]@ == r2.ring@[i]@ by {
        assert(r1.secret_keys@[i]@ == derived_secret(i));
        assert(r2.secret_keys@[i]@ == derived_secret(i));
    }
    assert(points_view(r1.ring@) =~= points_view(r2.ring@));
}

/// No signature verifies against the empty ring.
pub proof fn lemma_empty_ring_rejected(msg: Seq<u8>, anchor: Seq<u8>, resp: Seq<Seq<u8>>)
    ensures
        !verifies(msg, anchor, resp, Seq::empty()),
{
}

/// No signature verifies against a ring whose length differs from its number
/// of responses.
pub proof fn lemma_length_mismatch_rejected(
    msg: Seq<u8>,
    anchor: Seq<u8>,
    resp: Seq<Seq<u8>>,
    pts: Seq<Seq<u8>>,
)
    requires
        resp.len() != pts.len(),
    ensures
        !verifies(msg, anchor, resp, pts),
{
}

/// Thirty-two copies of `b`.
fn fill(b: u8) -> (r: Vec<u8>)
    ensures
        r@ == pattern(b),
{
    let mut r: Vec<u8> = Vec::new();
    let mut i: usize = 0;
    while i < 32
        invariant
            i <= 32,
            r@ == Seq::new(i as nat, |_j: int| b),
        decreases 32 - i,
    {
        r.push(b);
        i += 1;
        assert(r@ =~= Seq::new(i as nat, |_j: int| b));
    }
    r
}

/// Appends `src` to `dst`.
fn append_bytes(dst: &mut Vec<u8>, src: &[u8])
    ensures
        final(dst)@ == old(dst)@ + src@,
{
    let mut i: usize = 0;
    while i < src.len()
        invariant
            i <= src@.len(),
            dst@ == old(dst)@ + src@.subrange(0, i as int),
        decreases src@.len() - i,
    {
        dst.push(src[i]);
        i += 1;
        assert(dst@ =~= old(dst)@ + src@.subrange(0, i as int));
    }
    assert(src@.subrange(0, src@.len() as int) =~= src@);
}

/// The ring's points one after the other, then the message.
fn build_base(ring: &Vec<G1Point>, msg: &Vec<u8>) -> (b: Vec<u8>)
    ensures
        b@ == base_of(points_view(ring@), msg@),
{
    let ghost pts = points_view(ring@);
    let mut b: Vec<u8> = Vec::new();
    let mut i: usize = 0;
    while i < ring.len()
        invariant
            i <= ring@.len(),
            pts == points_view(ring@),
            b@ == concat_points(pts.take(i as int)),
        decreases ring@.len() - i,
    {
        let bytes = ring[i].to_bytes();
        append_bytes(&mut b, &bytes);
        proof {
            assert(pts.take(i + 1).drop_last() =~= pts.take(i as int));
        }
        i += 1;
    }
    assert(pts.take(ring@.len() as int) =~= pts);
    append_bytes(&mut b, msg.as_slice());
    b
}

/// The commitment `r · G + c · pk`.
fn commit(env: &Env, gen: &G1Point, r: &Scalar, c: &Scalar, pk: &G1Point) -> (x: G1Point)
    requires
        gen@ == G1_GENERATOR@,
    ensures
        x@ == commitment(r@, c@, pk@),
{
    let x1 = g1_mul(env, gen, r);
    let x2 = g1_mul(env, pk, c);
    g1_add(env, &x1, &x2)
}

/// The challenge that follows commitment `x`.
fn challenge_after(env: &Env, base: &Vec<u8>, x: &G1Point) -> (c: Scalar)
    ensures
        c@ == next_challenge(base@, x@),
{
    let mut pre: Vec<u8> = Vec::new();
    append_bytes(&mut pre, base.as_slice());
    let bytes = x.to_bytes();
    append_bytes(&mut pre, &bytes);
    let h = sha256(env, pre.as_slice());
    fr_canonical(env, &h)
}


impl RingSigContract {
    /// Derives `ring_size` key pairs: the `i`-th secret is the pattern of its
    /// key byte hashed twice and read as a scalar, its public point
    /// `secret · G`. Derivation is deterministic.
    pub fn create_keys(env: &Env, ring_size: u32) -> (r: KeyRingResult)
        ensures
            derived_key_set(r, ring_size as nat),
    {
        let gen = G1Point::generator();
        let mut ring: Vec<G1Point> = Vec::new();
        let mut secret_keys: Vec<Scalar> = Vec::new();
        let mut i: u32 = 0;
        while i < ring_size
            invariant
                i <= ring_size,
                gen@ == G1_GENERATOR@,
                derived_key_set(KeyRingResult { secret_keys, ring }, i as nat),
            decreases ring_size - i,
        {
            let seed = fill((i % 256) as u8);
            let once = sha256(env, seed.as_slice());
            let twice = sha256(env, &once);
            let sk = fr_canonical(env, &twice);
            let pk = g1_mul(env, &gen, &sk);
            secret_keys.push(sk);
            ring.push(pk);
            i += 1;
        }
        KeyRingResult { secret_keys, ring }
    }

    /// Verifies a signature against a ring: false at once when the ring is
    /// empty or its length differs from the number of responses; otherwise
    /// true exactly when the challenge chain, walked once round the ring from
    /// the anchor, closes on the anchor.
    pub fn verify_ring(env: &Env, msg: &Vec<u8>, sig: &RingSignature, ring: &Vec<G1Point>) -> (ok: bool)
        ensures
            ok == verifies(msg@, sig.challenge@, scalars_view(sig.responses@), points_view(ring@)),
    {
        let n = ring.len();
        if n == 0 || n != sig.responses.len() {
            return false;
        }
        let ghost pts = points_view(ring@);
        let ghost resp = scalars_view(sig.responses@);
        let gen = G1Point::generator();
        let base = build_base(ring, msg);
        let anchor = fr_canonical(env, &sig.challenge);
        let mut c = anchor;
        let mut j: usize = 0;
        while j < n
            invariant
                j <= n,
                n == ring@.len(),
                n == sig.responses@.len(),
                gen@ == G1_GENERATOR@,
                pts == points_view(ring@),
                resp == scalars_view(sig.responses@),
                base@ == base_of(pts, msg@),
                c@ == verify_chain(base@, pts, resp, sig.challenge@, j as nat),
            decreases n - j,
        {
            let x = commit(env, &gen, &sig.responses[j], &c, &ring[j]);
            c = challenge_after(env, &base, &x);
            j += 1;
        }
        bytes_eq(&c, &anchor)
    }

    /// The ring a signer at `secret_idx` works on: `ring` with that position
    /// set to `sk · G`.
    pub fn effective_ring_of(env: &Env, ring: &Vec<G1Point>, secret_idx: u32, sk: &Scalar) -> (r: Vec<G1Point>)
        requires
            secret_idx < ring@.len(),
        ensures
            points_view(r@) == effective_ring(points_view(ring@), secret_idx as int, sk@),
    {
        let n = ring.len();
        let s = secret_idx as usize;
        let gen = G1Point::generator();
        let pk = g1_mul(env, &gen, sk);
        let mut eff: Vec<G1Point> = Vec::new();
        let mut i: usize = 0;
        while i < n
            invariant
                i <= n,
                n == ring@.len(),
                s == secret_idx,
                gen@ == G1_GENERATOR@,
                pk@ == public_of(sk@),
                eff@.len() == i,
                forall|j: int| 0 <= j < i ==> #[trigger] eff@[j] == if j == s as int { pk } else { ring@[j] },
            decreases n - i,
        {
            if i == s {
                eff.push(pk);
            } else {
                eff.push(ring[i]);
            }
            i += 1;
        }
        assert(points_view(eff@) =~= effective_ring(points_view(ring@), secret_idx as int, sk@));
        eff
    }

    /// Signs `msg` for the ring with the secret of position `secret_idx`,
    /// with the deterministic nonce and responses: each a pattern hashed
    /// twice.
    pub fn sign(env: &Env, msg: &Vec<u8>, ring: &Vec<G1Point>, secret_idx: u32, sk: &Scalar) -> (sig: RingSignature)
        requires
            secret_idx < ring@.len(),
        ensures
            signed(sig, msg@, points_view(ring@), secret_idx as int, sk@, nonce(), filler_responses(ring@.len() as nat)),
    {
        let n = ring.len();
        let mut fillers: Vec<Scalar> = Vec::new();
        let mut i: usize = 0;
        while i < n
            invariant
                i <= n,
                n == ring@.len(),
                fillers@.len() == i,
                forall|j: int| 0 <= j < i ==> #[trigger] fillers@[j]@ == filler_response(j),
            decreases n - i,
        {
            let seed = fill(((i % 256 + 100) % 256) as u8);
            let once = sha256(env, seed.as_slice());
            fillers.push(sha256(env, &once));
            i += 1;
        }
        assert(scalars_view(fillers@) =~= filler_responses(n as nat));
        let seed = fill(42);
        let once = sha256(env, seed.as_slice());
        let a = sha256(env, &once);
        RingSigContract::sign_with(env, msg, ring, secret_idx, sk, &a, &fillers)
    }

    /// Signs `msg` for the ring with the secret of position `secret_idx`,
    /// nonce `a` and the responses `fillers` at every other position.
    ///
    /// The signer works on the effective ring, where position `secret_idx`
    /// holds `sk · G`. It commits to `a · G`, walks the challenge chain from
    /// the position after its own round to its own, and closes the ring with
    /// `a − c · sk` at its own position. The published challenge is the one at
    /// position 0.
    pub fn sign_with(
        env: &Env,
        msg: &Vec<u8>,
        ring: &Vec<G1Point>,
        secret_idx: u32,
        sk: &Scalar,
        a: &Scalar,
        fillers: &Vec<Scalar>,
    ) -> (sig: RingSignature)
        requires
            secret_idx < ring@.len(),
            fillers@.len() == ring@.len(),
        ensures
            signed(sig, msg@, points_view(ring@), secret_idx as int, sk@, a@, scalars_view(fillers@)),
    {
        let n = ring.len();
        let s = secret_idx as usize;
        let ghost ns = n as int;
        let ghost si = s as int;
        let ghost fill_v = scalars_view(fillers@);
        let gen = G1Point::generator();
        let eff = RingSigContract::effective_ring_of(env, ring, secret_idx, sk);
        let ghost pts = points_view(eff@);
        let mut responses: Vec<Scalar> = Vec::new();
        let mut i: usize = 0;
        while i < n
            invariant
                i <= n,
                n == fillers@.len(),
                responses@.len() == i,
                forall|j: int| 0 <= j < i ==> #[trigger] responses@[j] == fillers@[j],
            decreases n - i,
        {
            responses.push(fillers[i]);
            i += 1;
        }
        let base = build_base(&eff, msg);
        let xs = g1_mul(env, &gen, a);
        let mut c = challenge_after(env, &base, &xs);
        let ghost k0: nat = (ns - 1 - si) as nat;
        let mut idx: usize = if s + 1 == n { 0 } else { s + 1 };
        let mut anchor = c;
        let ghost mut k: nat = 0;
        proof {
            lemma_walk_pos(ns, si, 0);
        }
        while idx != s
            invariant
                0 <= si < ns,
                ns == n,
                si == s,
                n == eff@.len(),
                gen@ == G1_GENERATOR@,
                pts == points_view(eff@),
                base@ == base_of(pts, msg@),
                fill_v == scalars_view(fillers@),
                fillers@.len() == n,
                responses@.len() == n,
                forall|j: int| 0 <= j < n ==> #[trigger] responses@[j] == fillers@[j],
                k0 == ns - 1 - si,
                k < ns,
                idx == walk_pos(ns, si, k),
                c@ == sign_chain(base@, pts, si, k, a@, fill_v),
                k >= k0 ==> anchor@ == sign_chain(base@, pts, si, k0, a@, fill_v),
            decreases ns - k,
        {
            proof {
                lemma_walk_pos(ns, si, k);
                if k == ns - 1 {
                    assert(idx == si);
                }
            }
            let x = commit(env, &gen, &responses[idx], &c, &eff[idx]);
            c = challenge_after(env, &base, &x);
            idx = if idx + 1 == n { 0 } else { idx + 1 };
            proof {
                k = k + 1;
                lemma_walk_pos(ns, si, k);
            }
            if idx == 0 {
                anchor = c;
            }
        }
        proof {
            lemma_walk_pos(ns, si, k);
            assert(k == ns - 1);
        }
        let cs = fr_mul(env, &c, sk);
        let rs = fr_sub(env, a, &cs);
        responses.set(s, rs);
        RingSignature { challenge: anchor, responses }
    }
}

} // verus!
