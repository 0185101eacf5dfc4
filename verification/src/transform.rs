//! New parameter sets made from an existing one: a padded selection of the G1
//! powers, and the G1 parameters in Lagrange form.

use crate::field::BaseField;
use crate::point::G1Point;
use crate::srs::KZGCommitmentScheme;
use ark_bn254::{Fq, Fr, G1Affine, G1Projective};
use ark_ec::{AffineRepr, CurveGroup};
use ark_ff::{BigInt, PrimeField};
use ark_poly::{EvaluationDomain, Radix2EvaluationDomain};
use vstd::arithmetic::power2::{lemma2_to64, lemma_pow2_unfold, pow2};
use vstd::prelude::*;

verus! {

/// The G1 powers that the padded parameter set keeps: `0..2051`, then
/// `4096..4099`, then `8192..8195`.
pub open spec fn padding_selection(g1: Seq<G1Point>) -> Seq<G1Point> {
    g1.subrange(0, 2051) + g1.subrange(4096, 4099) + g1.subrange(8192, 8195)
}

/// Appends `src[from..to]` to `out`.
fn extend_with_range(out: &mut Vec<G1Point>, src: &Vec<G1Point>, from: usize, to: usize)
    requires
        from <= to <= src@.len(),
    ensures
        final(out)@ == old(out)@ + src@.subrange(from as int, to as int),
{
    let ghost start = old(out)@;
    let mut i = from;
    while i < to
        invariant
            from <= i <= to,
            to <= src@.len(),
            out@ =~= start + src@.subrange(from as int, i as int),
        decreases to - i,
    {
        out.push(src[i]);
        i = i + 1;
    }
}

/// The padded parameter set: the selected G1 powers, in order, and the same
/// G2 parameters. The G1 list must hold at least 8195 points.
pub fn padded_srs(scheme: KZGCommitmentScheme) -> (res: KZGCommitmentScheme)
    requires
        scheme.public_parameter_group_1@.len() >= 8195,
    ensures
        res.public_parameter_group_1@ == padding_selection(scheme.public_parameter_group_1@),
        res.public_parameter_group_2@ == scheme.public_parameter_group_2@,
        scheme.wf() ==> res.wf(),
{
    let mut new_g1: Vec<G1Point> = Vec::with_capacity(2057);
    extend_with_range(&mut new_g1, &scheme.public_parameter_group_1, 0, 2051);
    extend_with_range(&mut new_g1, &scheme.public_parameter_group_1, 4096, 4099);
    extend_with_range(&mut new_g1, &scheme.public_parameter_group_1, 8192, 8195);
    proof {
        let g1 = scheme.public_parameter_group_1@;
        assert(new_g1@ =~= padding_selection(g1));
        if scheme.wf() {
            assert forall|i: int| 0 <= i < new_g1@.len() implies (#[trigger] new_g1@[i]).wf() by {
                if i < 2051 {
                    assert(new_g1@[i] == g1[i]);
                } else if i < 2054 {
                    assert(new_g1@[i] == g1[i - 2051 + 4096]);
                } else {
                    assert(new_g1@[i] == g1[i - 2054 + 8192]);
                }
            }
        }
    }
    KZGCommitmentScheme {
        public_parameter_group_1: new_g1,
        public_parameter_group_2: scheme.public_parameter_group_2,
    }
}

/// What ark-poly's inverse FFT over the radix-2 domain of BN254's scalar field,
/// of the domain's size, gives for a list of G1 points, each result converted
/// to affine form.
pub uninterp spec fn g1_inverse_fft(points: Seq<G1Point>) -> Seq<G1Point>;

/// Runs ark-poly's `ifft` on the points, as projective points, over
/// `Radix2EvaluationDomain::<Fr>` of their number, and converts the results to
/// affine form. The number must be a power of two no larger than `2^28`, the
/// largest domain the scalar field has. As the crates' sources show, the
/// result has as many points as the input, and each has canonical
/// coordinates (zero for the point at infinity).
#[verifier::external_body]
fn g1_ifft(points: &[G1Point]) -> (res: Vec<G1Point>)
    requires
        exists|k: nat| k <= 28 && points@.len() == pow2(k),
        forall|i: int| 0 <= i < points@.len() ==> (#[trigger] points@[i]).wf(),
    ensures
        res@ == g1_inverse_fft(points@),
        res@.len() == points@.len(),
        forall|i: int| 0 <= i < res@.len() ==> (#[trigger] res@[i]).wf(),
{
    let f = |l: [u64; 4]| Fq::from_bigint(BigInt::new(l)).unwrap();
    let ps: Vec<G1Projective> = points.iter().map(|p| {
        G1Affine { x: f(p.x.limbs), y: f(p.y.limbs), infinity: p.infinity }.into_group()
    }).collect();
    let domain = Radix2EvaluationDomain::<Fr>::new(ps.len()).unwrap();
    domain.ifft(&ps).iter().map(|v| {
        let a = v.into_affine();
        let (x, y) = (a.x.into_bigint().0, a.y.into_bigint().0);
        G1Point { x: BaseField { limbs: x }, y: BaseField { limbs: y }, infinity: a.infinity }
    }).collect()
}

/// The parameters in Lagrange form for degree `2^n`: the inverse FFT of the
/// first `2^n` G1 powers, and no G2 parameters. `n` must be at most 28 and the
/// G1 list must hold at least `2^n` points.
pub fn lagrange_srs(scheme: &KZGCommitmentScheme, n: u32) -> (res: KZGCommitmentScheme)
    requires
        scheme.wf(),
        n <= 28,
        pow2(n as nat) <= scheme.public_parameter_group_1@.len(),
    ensures
        res.public_parameter_group_1@ == g1_inverse_fft(
            scheme.public_parameter_group_1@.subrange(0, pow2(n as nat) as int),
        ),
        res.public_parameter_group_1@.len() == pow2(n as nat),
        res.public_parameter_group_2@.len() == 0,
        res.wf(),
{
    let mut degree: usize = 1;
    let mut i: u32 = 0;
    proof {
        lemma2_to64();
    }
    while i < n
        invariant
            i <= n <= 28,
            degree == pow2(i as nat),
            pow2(28) == 0x1000_0000,
            forall|e: nat| e <= 28 ==> pow2(e) <= 0x1000_0000,
        decreases n - i,
    {
        proof {
            lemma_pow2_unfold((i + 1) as nat);
            assert(pow2((i + 1) as nat) <= 0x1000_0000);
        }
        degree = degree * 2;
        i = i + 1;
    }
    let first = vstd::slice::slice_subrange(scheme.public_parameter_group_1.as_slice(), 0, degree);
    let lagrange = g1_ifft(first);
    KZGCommitmentScheme { public_parameter_group_1: lagrange, public_parameter_group_2: Vec::new() }
}

} // verus!
