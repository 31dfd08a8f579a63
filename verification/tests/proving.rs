//! The constraint system under the real prover and verifier, and the field beside
//! the real one.

use title_verifier::air::{PublicInputs, TitleAir};
use title_verifier::challenge::{
    air_public_inputs, request_challenge_impl, verify_crypto_impl, verify_precheck_impl, ProofCheck,
    MIN_CONJECTURED_SECURITY,
};
use title_verifier::context;
use title_verifier::decimal::fe_to_string;
use title_verifier::demo::demo_witness;
use title_verifier::field::{BaseElement, FieldElement as LibraryField};
use title_verifier::fuzz::Rng;
use title_verifier::layout::{NUM_ASSERTIONS, NUM_TRANSITION_CONSTRAINTS};
use title_verifier::permutation::{apply_round, round_constants};
use title_verifier::principal::Principal;
use title_verifier::registry::{fresh_state, VerifyPublicInputs, MIN_CALL_INTERVAL_NS, REGISTRY_ID};
use title_verifier::trace::build_trace;
use winterfell::crypto::hashers::Blake3_256;
use winterfell::crypto::{DefaultRandomCoin, MerkleTree};
use winterfell::math::fields::f128;
use winterfell::math::{FieldElement, StarkField, ToElements};
use winterfell::matrix::ColMatrix;
use winterfell::{
    AcceptableOptions, Air, AirContext, Assertion, AuxRandElements, BatchingMethod, CompositionPoly,
    CompositionPolyTrace, ConstraintCompositionCoefficients, DefaultConstraintCommitment,
    DefaultConstraintEvaluator, DefaultTraceLde, EvaluationFrame, FieldExtension, PartitionOptions,
    Proof, ProofOptions, Prover, StarkDomain, TraceInfo, TracePolyTable, TraceTable,
    TransitionConstraintDegree,
};

type HashFn = Blake3_256<f128::BaseElement>;
type RandCoin = DefaultRandomCoin<HashFn>;
type Commitment = MerkleTree<HashFn>;

fn wide(e: BaseElement) -> f128::BaseElement {
    f128::BaseElement::new(e.as_int())
}

#[derive(Clone, Copy)]
struct Lane<E>(E);

impl<E: FieldElement<BaseField = f128::BaseElement>> LibraryField for Lane<E> {
    fn spec_zero() -> Self {
        Self::zero()
    }

    fn spec_one() -> Self {
        Self::one()
    }

    fn spec_from_base(b: BaseElement) -> Self {
        Self::from_base(b)
    }

    fn spec_plus(self, rhs: Self) -> Self {
        self.plus(rhs)
    }

    fn spec_minus(self, rhs: Self) -> Self {
        self.minus(rhs)
    }

    fn spec_times(self, rhs: Self) -> Self {
        self.times(rhs)
    }

    fn spec_exp(self, power: u32) -> Self {
        LibraryField::exp(self, power)
    }

    fn zero() -> Self {
        Lane(E::ZERO)
    }

    fn one() -> Self {
        Lane(E::ONE)
    }

    fn from_base(b: BaseElement) -> Self {
        Lane(E::from(wide(b)))
    }

    fn plus(self, rhs: Self) -> Self {
        Lane(self.0 + rhs.0)
    }

    fn minus(self, rhs: Self) -> Self {
        Lane(self.0 - rhs.0)
    }

    fn times(self, rhs: Self) -> Self {
        Lane(self.0 * rhs.0)
    }

    fn exp(self, power: u32) -> Self {
        Lane(self.0.exp(power.into()))
    }
}

#[derive(Clone)]
struct RealInputs(PublicInputs);

impl ToElements<f128::BaseElement> for RealInputs {
    fn to_elements(&self) -> Vec<f128::BaseElement> {
        self.0.to_elements().into_iter().map(wide).collect()
    }
}

/// With debug assertions on, the prover wants the exact degree of each constraint.
/// On the trace of the demonstration, the sum of the job kinds and the bits that
/// are zero in its number of remaining seconds vanish as polynomials.
fn vanishes_on_the_demo_trace(constraint: usize) -> bool {
    let remaining: u64 = 365 * 24 * 3600 - 1;
    constraint == 14 || (16..48).contains(&constraint) && (remaining >> (constraint - 16)) & 1 == 0
}

struct RealAir {
    context: AirContext<f128::BaseElement>,
    inner: TitleAir,
}

impl Air for RealAir {
    type BaseField = f128::BaseElement;
    type PublicInputs = RealInputs;

    fn new(trace_info: TraceInfo, pub_inputs: RealInputs, options: ProofOptions) -> Self {
        let shape = context::TraceInfo::new(trace_info.width(), trace_info.length());
        let inner = TitleAir::new(shape, pub_inputs.0, context::demo_proof_options());
        let degrees = inner
            .context()
            .transition_constraint_degrees
            .iter()
            .enumerate()
            .map(|(i, d)| {
                if vanishes_on_the_demo_trace(i) {
                    TransitionConstraintDegree::new(1)
                } else if d.cycles.is_empty() {
                    TransitionConstraintDegree::new(d.base)
                } else {
                    TransitionConstraintDegree::with_cycles(d.base, d.cycles.clone())
                }
            })
            .collect();
        RealAir { context: AirContext::new(trace_info, degrees, NUM_ASSERTIONS, options), inner }
    }

    fn context(&self) -> &AirContext<f128::BaseElement> {
        &self.context
    }

    fn evaluate_transition<E: FieldElement<BaseField = f128::BaseElement>>(
        &self,
        frame: &EvaluationFrame<E>,
        periodic_values: &[E],
        result: &mut [E],
    ) {
        let rows = context::EvaluationFrame::from_rows(
            frame.current().iter().map(|v| Lane(*v)).collect(),
            frame.next().iter().map(|v| Lane(*v)).collect(),
        );
        let periodic: Vec<Lane<E>> = periodic_values.iter().map(|v| Lane(*v)).collect();
        let mut out = vec![Lane(E::ZERO); NUM_TRANSITION_CONSTRAINTS];
        self.inner.evaluate_transition(&rows, &periodic, &mut out);
        for (r, o) in result.iter_mut().zip(out) {
            *r = o.0;
        }
    }

    fn get_assertions(&self) -> Vec<Assertion<f128::BaseElement>> {
        self.inner
            .get_assertions()
            .into_iter()
            .map(|a| Assertion::single(a.column, a.first_step, wide(a.value)))
            .collect()
    }

    fn get_periodic_column_values(&self) -> Vec<Vec<f128::BaseElement>> {
        self.inner
            .get_periodic_column_values()
            .into_iter()
            .map(|c| c.into_iter().map(wide).collect())
            .collect()
    }
}

struct RealProver {
    options: ProofOptions,
    inputs: RealInputs,
}

impl Prover for RealProver {
    type BaseField = f128::BaseElement;
    type Air = RealAir;
    type Trace = TraceTable<f128::BaseElement>;
    type HashFn = HashFn;
    type VC = Commitment;
    type RandomCoin = RandCoin;
    type TraceLde<E: FieldElement<BaseField = Self::BaseField>> =
        DefaultTraceLde<E, Self::HashFn, Self::VC>;
    type ConstraintCommitment<E: FieldElement<BaseField = Self::BaseField>> =
        DefaultConstraintCommitment<E, Self::HashFn, Self::VC>;
    type ConstraintEvaluator<'a, E: FieldElement<BaseField = Self::BaseField>> =
        DefaultConstraintEvaluator<'a, Self::Air, E>;

    fn get_pub_inputs(&self, _trace: &Self::Trace) -> RealInputs {
        self.inputs.clone()
    }

    fn options(&self) -> &ProofOptions {
        &self.options
    }

    fn new_trace_lde<E: FieldElement<BaseField = Self::BaseField>>(
        &self,
        trace_info: &TraceInfo,
        main_trace: &ColMatrix<Self::BaseField>,
        domain: &StarkDomain<Self::BaseField>,
        partition_option: PartitionOptions,
    ) -> (Self::TraceLde<E>, TracePolyTable<E>) {
        DefaultTraceLde::new(trace_info, main_trace, domain, partition_option)
    }

    fn build_constraint_commitment<E: FieldElement<BaseField = Self::BaseField>>(
        &self,
        composition_poly_trace: CompositionPolyTrace<E>,
        num_constraint_composition_columns: usize,
        domain: &StarkDomain<Self::BaseField>,
        partition_options: PartitionOptions,
    ) -> (Self::ConstraintCommitment<E>, CompositionPoly<E>) {
        DefaultConstraintCommitment::new(
            composition_poly_trace,
            num_constraint_composition_columns,
            domain,
            partition_options,
        )
    }

    fn new_evaluator<'a, E: FieldElement<BaseField = Self::BaseField>>(
        &self,
        air: &'a Self::Air,
        aux_rand_elements: Option<AuxRandElements<E>>,
        composition_coefficients: ConstraintCompositionCoefficients<E>,
    ) -> Self::ConstraintEvaluator<'a, E> {
        DefaultConstraintEvaluator::new(air, aux_rand_elements, composition_coefficients)
    }
}

fn check(inputs: PublicInputs, bytes: &[u8]) -> ProofCheck {
    match Proof::from_bytes(bytes) {
        Err(e) => ProofCheck::Undecodable(format!("{e}")),
        Ok(proof) => match winterfell::verify::<RealAir, HashFn, RandCoin, Commitment>(
            proof,
            RealInputs(inputs),
            &AcceptableOptions::MinConjecturedSecurity(MIN_CONJECTURED_SECURITY),
        ) {
            Ok(()) => ProofCheck::Accepted,
            Err(e) => ProofCheck::Rejected(format!("{e}")),
        },
    }
}

fn vpi(root: BaseElement, nonce: u64, ts: u64, nullifier: &str) -> VerifyPublicInputs {
    VerifyPublicInputs {
        registry_id: REGISTRY_ID,
        merkle_root: fe_to_string(root),
        purpose: 1,
        request_nonce: nonce,
        current_timestamp: ts,
        nullifier: nullifier.to_string(),
    }
}

fn verify_crypto(inputs: &VerifyPublicInputs, bytes: &[u8]) -> Result<(), String> {
    let outcome = match air_public_inputs(inputs) {
        Ok(pi) => check(pi, bytes),
        Err(_) => ProofCheck::Panicked,
    };
    verify_crypto_impl(inputs, outcome)
}

#[test]
fn verify_crypto_rejects_empty_proof_bytes() {
    let inputs = vpi(BaseElement::new(0), 0, 0, "1");
    let result = verify_crypto(&inputs, &[]);
    assert!(result.is_err());
}

#[test]
fn verify_crypto_rejects_malformed_merkle_root_before_touching_proof_bytes() {
    let mut inputs = vpi(BaseElement::new(0), 0, 0, "1");
    inputs.merkle_root = "not-a-number".to_string();
    let result = verify_crypto(&inputs, b"anything");
    assert!(result.is_err());
    assert!(result.unwrap_err().contains("could not parse"));
}

#[test]
fn verify_precheck_and_commit_leave_state_untouched_when_crypto_phase_fails() {
    let p = Principal::from_slice(&[1, 0xFF]);
    let mut s = fresh_state();
    let view = request_challenge_impl(&mut s, p, 1_000_000_000, 1).unwrap();
    let root = s.current_root;
    let inputs = vpi(root, view.request_nonce, view.current_timestamp, "n1");

    verify_precheck_impl(&mut s, p, 1_000_000_000 + 1, view.challenge_id, &inputs).unwrap();
    let crypto_result = verify_crypto(&inputs, b"garbage-not-a-real-proof");
    assert!(crypto_result.is_err());

    assert!(!s.challenges.get(&view.challenge_id).unwrap().consumed);
    assert!(s.nullifiers.find("n1").is_none());

    let t2 = 1_000_000_000 + MIN_CALL_INTERVAL_NS + 1;
    assert!(verify_precheck_impl(&mut s, p, t2, view.challenge_id, &inputs).is_ok());
}

#[test]
fn field_agrees_with_the_real_field() {
    let mut rng = Rng(0x1234_5678_9abc_def1);
    let mut values: Vec<u128> = vec![
        0,
        1,
        2,
        u128::MAX,
        340282366920938463463374557953744961536,
        340282366920938463463374557953744961537,
        340282366920938463463374557953744961538,
    ];
    for _ in 0..40 {
        values.push(((rng.next_u64() as u128) << 64) | rng.next_u64() as u128);
    }
    for &x in &values {
        for &y in &values {
            let (a, b) = (BaseElement::new(x), BaseElement::new(y));
            let (ra, rb) = (f128::BaseElement::new(x), f128::BaseElement::new(y));
            assert_eq!((a + b).as_int(), (ra + rb).as_int());
            assert_eq!((a - b).as_int(), (ra - rb).as_int());
            assert_eq!((a * b).as_int(), (ra * rb).as_int());
            assert_eq!((-a).as_int(), (-ra).as_int());
        }
        let (a, ra) = (BaseElement::new(x), f128::BaseElement::new(x));
        assert_eq!(a.exp(3).as_int(), ra.exp(3u32.into()).as_int());
        let b = BaseElement::new(values[8]);
        assert_eq!((b / a).as_int(), (f128::BaseElement::new(values[8]) / ra).as_int());
        assert_eq!(fe_to_string(a), format!("{ra}"));
    }
}

#[test]
fn round_agrees_over_the_real_field() {
    let constants = round_constants();
    let state: [BaseElement; 8] = [BaseElement::new(5); 8];
    let lanes: [Lane<f128::BaseElement>; 8] = [Lane(f128::BaseElement::new(5)); 8];
    for round in constants.iter() {
        let real_round: Vec<Lane<f128::BaseElement>> = round.iter().map(|c| Lane(wide(*c))).collect();
        let real_round: [Lane<f128::BaseElement>; 8] = match real_round.try_into() {
            Ok(lanes) => lanes,
            Err(_) => panic!("a round has 8 constants"),
        };
        let ours = apply_round(&state, round);
        let theirs = apply_round(&lanes, &real_round);
        for i in 0..8 {
            assert_eq!(wide(ours[i]), theirs[i].0);
        }
    }
}

#[test]
fn verify_crypto_accepts_a_genuine_proof_from_the_real_prover() {
    let (witness, _root) = demo_witness();
    let (cols, pub_inputs) = build_trace(&witness);
    let real_cols: Vec<Vec<f128::BaseElement>> =
        cols.into_iter().map(|c| c.into_iter().map(wide).collect()).collect();
    let options = ProofOptions::new(
        32,
        8,
        0,
        FieldExtension::None,
        8,
        31,
        BatchingMethod::Linear,
        BatchingMethod::Linear,
    );
    let prover = RealProver { options, inputs: RealInputs(pub_inputs) };
    let proof = prover.prove(TraceTable::init(real_cols)).unwrap();
    let bytes = proof.to_bytes();
    assert!(matches!(check(pub_inputs, &bytes), ProofCheck::Accepted));

    let mut other = pub_inputs;
    other.nullifier += BaseElement::new(1);
    assert!(matches!(check(other, &bytes), ProofCheck::Rejected(_)));

    let claimed = VerifyPublicInputs {
        registry_id: 1,
        merkle_root: fe_to_string(pub_inputs.merkle_root),
        purpose: 1,
        request_nonce: 7,
        current_timestamp: witness.current_timestamp,
        nullifier: fe_to_string(pub_inputs.nullifier),
    };
    assert_eq!(air_public_inputs(&claimed).unwrap(), pub_inputs);
    assert!(verify_crypto(&claimed, &bytes).is_ok());
}

struct FuzzRng(u64);

impl FuzzRng {
    fn next_u64(&mut self) -> u64 {
        self.0 ^= self.0 << 13;
        self.0 ^= self.0 >> 7;
        self.0 ^= self.0 << 17;
        self.0
    }

    fn next_byte(&mut self) -> u8 {
        (self.next_u64() & 0xFF) as u8
    }

    fn bytes(&mut self, len: usize) -> Vec<u8> {
        (0..len).map(|_| self.next_byte()).collect()
    }
}

#[test]
fn verify_crypto_never_panics_on_arbitrary_garbage_bytes() {
    let inputs = vpi(BaseElement::new(0), 0, 0, "1");
    let payloads: Vec<Vec<u8>> = vec![
        vec![],
        vec![0u8; 4],
        vec![0xFFu8; 4],
        vec![0u8; 10_000],
        (0..2000u32).map(|i| (i % 256) as u8).collect(),
        b"not even close to a proof".to_vec(),
    ];
    for bytes in payloads {
        assert!(verify_crypto(&inputs, &bytes).is_err());
    }
}

#[test]
fn verify_precheck_fuzz_malformed_public_input_strings_never_panic() {
    let p = Principal::from_slice(&[1, 0xFF]);
    let mut s = fresh_state();
    let view = request_challenge_impl(&mut s, p, 1_000_000_000, 1).unwrap();
    let mut rng = FuzzRng(0x9E3779B9_u64 ^ 0xDEAD_BEEF_CAFE_F00D);
    let mut now_ns = 1_000_000_000 + 1;
    for _ in 0..200 {
        let junk_len = 1 + (rng.next_u64() % 64) as usize;
        let junk = rng.bytes(junk_len);
        let s_lossy = String::from_utf8_lossy(&junk).to_string();
        let mut inputs =
            vpi(BaseElement::new(0), view.request_nonce, view.current_timestamp, "n1");
        inputs.merkle_root = s_lossy.clone();
        inputs.nullifier = s_lossy;
        let outcome = verify_precheck_impl(&mut s, p, now_ns, view.challenge_id, &inputs);
        assert!(outcome.is_err());
        now_ns += MIN_CALL_INTERVAL_NS;
    }
}
