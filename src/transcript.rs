use vstd::prelude::*;

use lambdaworks_crypto::fiat_shamir::default_transcript::DefaultTranscript;
use lambdaworks_crypto::fiat_shamir::is_transcript::IsTranscript;
use lambdaworks_math::field::fields::fft_friendly::stark_252_prime_field::Stark252PrimeField;

use crate::air::all_wf;
use crate::field::{Felt, modulus};

verus! {

/// The Keccak-256 digest of a byte string.
pub uninterp spec fn keccak256_of(data: Seq<u8>) -> Seq<u8>;

/// The challenge a sponge gives after absorbing `absorbed`: its Keccak-256
/// digest, bytes reversed.
pub open spec fn challenge_of(absorbed: Seq<u8>) -> Seq<u8> {
    keccak256_of(absorbed).reverse()
}

/// lambdaworks' `DefaultTranscript` over the 252-bit field, held opaque.
#[verifier::external_body]
pub struct Sponge {
    inner: DefaultTranscript<Stark252PrimeField>,
}

/// The Fiat-Shamir transcript shared by prover and verifier. `absorbed` is what
/// the sponge holds since its last challenge: a challenge hashes it and then
/// becomes the sponge's only content.
pub struct StarkTranscript {
    pub sponge: Sponge,
    pub absorbed: Ghost<Seq<u8>>,
}

impl StarkTranscript {
    /// Relies on lambdaworks' `DefaultTranscript::new`: a sponge that has absorbed nothing.
    #[verifier::external_body]
    pub fn new() -> (t: StarkTranscript)
        ensures
            t.absorbed@ == Seq::<u8>::empty(),
    {
        StarkTranscript {
            sponge: Sponge { inner: DefaultTranscript::<Stark252PrimeField>::new(&[]) },
            absorbed: Ghost(Seq::empty()),
        }
    }

    /// Relies on lambdaworks' `IsTranscript::append_bytes`: the sponge absorbs the bytes.
    #[verifier::external_body]
    pub fn append(&mut self, bytes: &[u8])
        ensures
            final(self).absorbed@ == old(self).absorbed@ + bytes@,
    {
        self.sponge.inner.append_bytes(bytes)
    }

    /// Relies on lambdaworks' `DefaultTranscript::sample`: the Keccak-256 digest
    /// of what was absorbed, reversed; the sponge is reset and absorbs it.
    #[verifier::external_body]
    pub fn challenge(&mut self) -> (r: [u8; 32])
        ensures
            r@ == keccak256_of(old(self).absorbed@).reverse(),
            final(self).absorbed@ == r@,
    {
        self.sponge.inner.sample()
    }
}

/// The unsigned integer that bytes spell, most significant first.
pub open spec fn be_value(s: Seq<u8>) -> nat
    decreases s.len(),
{
    if s.len() == 0 {
        0
    } else {
        be_value(s.drop_last()) * 256 + s.last() as nat
    }
}

/// `256^n`.
pub open spec fn byte_pow(n: nat) -> nat
    decreases n,
{
    if n == 0 {
        1
    } else {
        256 * byte_pow((n - 1) as nat)
    }
}

proof fn lemma_byte_pow_mono(a: nat, b: nat)
    requires
        a <= b,
    ensures
        1 <= byte_pow(a) <= byte_pow(b),
    decreases b,
{
    if b > a {
        lemma_byte_pow_mono(a, (b - 1) as nat);
    } else if a > 0 {
        lemma_byte_pow_mono((a - 1) as nat, (a - 1) as nat);
    }
}

proof fn lemma_be_value_bound(s: Seq<u8>)
    ensures
        be_value(s) < byte_pow(s.len()),
    decreases s.len(),
{
    if s.len() > 0 {
        lemma_be_value_bound(s.drop_last());
        let p = byte_pow((s.len() - 1) as nat);
        let v = be_value(s.drop_last());
        assert(v * 256 + s.last() < p * 256) by (nonlinear_arith)
            requires v < p, s.last() < 256;
    }
}

/// The first eight bytes of `bytes`, read as a big-endian `u64`.
pub fn u64_from_be_prefix(bytes: &[u8; 32]) -> (r: u64)
    ensures
        r as nat == be_value(bytes@.take(8)),
{
    let mut acc: u64 = 0;
    let mut i: usize = 0;
    proof {
        reveal_with_fuel(byte_pow, 9);
    }
    while i < 8
        invariant
            i <= 8,
            acc as nat == be_value(bytes@.take(i as int)),
            byte_pow(8) == 0x1_0000_0000_0000_0000,
        decreases 8 - i,
    {
        proof {
            let t = bytes@.take(i as int + 1);
            assert(t.drop_last() =~= bytes@.take(i as int));
            lemma_be_value_bound(t);
            lemma_byte_pow_mono((i + 1) as nat, 8);
        }
        acc = acc * 256 + bytes[i] as u64;
        i = i + 1;
    }
    acc
}

/// The `i`-th challenge drawn in a row from a sponge holding `a`.
pub open spec fn nth_draw(a: Seq<u8>, i: nat) -> Seq<u8>
    decreases i,
{
    if i == 0 {
        challenge_of(a)
    } else {
        challenge_of(nth_draw(a, (i - 1) as nat))
    }
}

/// What the sponge holds after `n` draws from `a`.
pub open spec fn after_draws(a: Seq<u8>, n: nat) -> Seq<u8> {
    if n == 0 {
        a
    } else {
        nth_draw(a, (n - 1) as nat)
    }
}

/// The integer a challenge gives: its first eight bytes, big-endian.
pub open spec fn draw_value(c: Seq<u8>) -> u64 {
    be_value(c.take(8)) as u64
}

/// The field element a challenge gives.
pub open spec fn draw_felt(c: Seq<u8>) -> Felt {
    Felt { l0: 0, l1: 0, l2: 0, l3: draw_value(c) }
}

/// The field elements of `n` draws from `a`.
pub open spec fn draw_felts(a: Seq<u8>, n: nat) -> Seq<Felt> {
    Seq::new(n, |i: int| draw_felt(nth_draw(a, i as nat)))
}

/// A field element drawn from the next challenge: its first eight bytes, big-endian.
pub fn transcript_to_field(transcript: &mut StarkTranscript) -> (r: Felt)
    ensures
        r == draw_felt(challenge_of(old(transcript).absorbed@)),
        final(transcript).absorbed@ == challenge_of(old(transcript).absorbed@),
        r.wf(),
{
    let c = transcript.challenge();
    let v = u64_from_be_prefix(&c);
    Felt::from_u64(v)
}

/// An index drawn from the next challenge: its first `usize`-width bytes, big-endian.
pub fn transcript_to_usize(transcript: &mut StarkTranscript) -> (r: usize)
    ensures
        r == draw_value(challenge_of(old(transcript).absorbed@)) as usize,
        final(transcript).absorbed@ == challenge_of(old(transcript).absorbed@),
{
    let c = transcript.challenge();
    u64_from_be_prefix(&c) as usize
}

/// `size` field elements drawn one after another.
pub fn batch_sample_challenges(size: usize, transcript: &mut StarkTranscript) -> (r: Vec<Felt>)
    ensures
        r@ == draw_felts(old(transcript).absorbed@, size as nat),
        final(transcript).absorbed@ == after_draws(old(transcript).absorbed@, size as nat),
        all_wf(r@),
{
    let ghost a = transcript.absorbed@;
    let mut r: Vec<Felt> = Vec::new();
    let mut i: usize = 0;
    while i < size
        invariant
            a == old(transcript).absorbed@,
            i <= size,
            r@ == draw_felts(a, i as nat),
            transcript.absorbed@ == after_draws(a, i as nat),
        decreases size - i,
    {
        let x = transcript_to_field(transcript);
        r.push(x);
        i = i + 1;
        proof {
            assert(r@ =~= draw_felts(a, i as nat));
        }
    }
    proof {
        assert forall|k: int| 0 <= k < r.len() implies #[trigger] r@[k].wf() by {
            lemma_draw_felt_wf(nth_draw(a, k as nat));
        }
    }
    r
}

/// A drawn element is reduced.
pub proof fn lemma_draw_felt_wf(c: Seq<u8>)
    ensures
        draw_felt(c).wf(),
{
    crate::field::lemma_small_is_reduced(draw_value(c));
}

/// Whether the value of `x` is among the values of `s`.
pub open spec fn contains_value(s: Seq<Felt>, x: Felt) -> bool {
    exists|i: int| 0 <= i < s.len() && #[trigger] s[i]@ == x@
}

/// Whether `x` has the value of some element of `s`.
pub fn contains(s: &[Felt], x: &Felt) -> (r: bool)
    ensures
        r == contains_value(s@, *x),
{
    let mut i: usize = 0;
    while i < s.len()
        invariant
            i <= s.len(),
            forall|k: int| 0 <= k < i ==> #[trigger] s@[k]@ != x@,
        decreases s.len() - i,
    {
        if s[i].equals(x) {
            return true;
        }
        i = i + 1;
    }
    false
}

/// `x` lies in one of the two domains.
pub open spec fn in_domains(lde: Seq<Felt>, trace: Seq<Felt>, x: Felt) -> bool {
    contains_value(lde, x) || contains_value(trace, x)
}

/// Draw `k` from `a` is the first that lies in neither domain.
pub open spec fn first_outside(a: Seq<u8>, lde: Seq<Felt>, trace: Seq<Felt>, k: nat) -> bool {
    &&& k < u64::MAX
    &&& !in_domains(lde, trace, draw_felt(nth_draw(a, k)))
    &&& forall|j: nat| j < k ==> #[trigger] in_domains(lde, trace, draw_felt(nth_draw(a, j)))
}

/// Draws the out-of-domain point: field elements are drawn until one lies in
/// neither domain, and the first such is returned. After `u64::MAX` draws that
/// all lie in a domain it gives up with `None`.
pub fn sample_z_ood(
    lde_roots_of_unity_coset: &[Felt],
    trace_roots_of_unity: &[Felt],
    transcript: &mut StarkTranscript,
) -> (r: Option<Felt>)
    ensures
        r matches Some(z) ==> exists|k: nat| #[trigger] first_outside(old(transcript).absorbed@,
            lde_roots_of_unity_coset@, trace_roots_of_unity@, k)
            && z == draw_felt(nth_draw(old(transcript).absorbed@, k))
            && final(transcript).absorbed@ == nth_draw(old(transcript).absorbed@, k),
        r is None ==> forall|j: nat| j < u64::MAX ==> #[trigger] in_domains(lde_roots_of_unity_coset@,
            trace_roots_of_unity@, draw_felt(nth_draw(old(transcript).absorbed@, j))),
        r matches Some(z) ==> z.wf() && !contains_value(lde_roots_of_unity_coset@, z)
            && !contains_value(trace_roots_of_unity@, z),
{
    let ghost a = transcript.absorbed@;
    let mut attempts: u64 = 0;
    while attempts < u64::MAX
        invariant
            a == old(transcript).absorbed@,
            attempts < u64::MAX ==> transcript.absorbed@ == after_draws(a, attempts as nat),
            forall|j: nat| j < attempts ==> #[trigger] in_domains(lde_roots_of_unity_coset@,
                trace_roots_of_unity@, draw_felt(nth_draw(a, j))),
        decreases u64::MAX - attempts,
    {
        let value = transcript_to_field(transcript);
        proof {
            if attempts > 0 {
                assert(nth_draw(a, attempts as nat) == challenge_of(nth_draw(a, (attempts - 1) as nat)));
            }
            assert(value == draw_felt(nth_draw(a, attempts as nat)));
            assert(transcript.absorbed@ == nth_draw(a, attempts as nat));
        }
        if !contains(lde_roots_of_unity_coset, &value) && !contains(trace_roots_of_unity, &value) {
            proof {
                assert(first_outside(a, lde_roots_of_unity_coset@, trace_roots_of_unity@, attempts as nat));
                lemma_draw_felt_wf(nth_draw(a, attempts as nat));
            }
            return Some(value);
        }
        attempts = attempts + 1;
    }
    None
}

} // verus!
