use tiny_keccak::Hasher;
use plasma_ovm::decider::{decide, DeciderError, DeciderKind, DeciderRegistry, Outcome, RegistryEntry, Witness};
use plasma_ovm::types::{Address, Property, PropertyInput, Range};

fn addr(b: u8) -> Address {
    Address { bytes: vec![b; 20] }
}

fn registry() -> DeciderRegistry {
    let kinds = [
        DeciderKind::And,
        DeciderKind::Not,
        DeciderKind::ForAllSuchThat,
        DeciderKind::SignedBy,
        DeciderKind::PreimageExists,
        DeciderKind::HasLowerNonce,
    ];
    DeciderRegistry {
        entries: kinds
            .iter()
            .enumerate()
            .map(|(i, k)| RegistryEntry { id: addr(i as u8 + 1), kind: *k })
            .collect(),
    }
}

fn lower_nonce(reference: u64) -> Property {
    Property { decider_id: addr(6), inputs: vec![PropertyInput::ConstantInteger(reference)] }
}

fn and_of(a: Property, b: Property) -> Property {
    Property {
        decider_id: addr(1),
        inputs: vec![PropertyInput::ConstantProperty(a), PropertyInput::ConstantProperty(b)],
    }
}

fn not_of(a: Property) -> Property {
    Property { decider_id: addr(2), inputs: vec![PropertyInput::ConstantProperty(a)] }
}

fn nonce(n: u64) -> Witness {
    Witness::Nonce { nonce: n, claim: vec![] }
}

fn outcome(p: &Property, w: &Witness) -> Result<Outcome, DeciderError> {
    decide(&registry(), p, w).map(|d| d.outcome)
}

#[test]
fn has_lower_nonce_compares_strictly() {
    assert_eq!(outcome(&lower_nonce(10), &nonce(9)), Ok(Outcome::True));
    assert_eq!(outcome(&lower_nonce(10), &nonce(10)), Ok(Outcome::False));
    assert_eq!(outcome(&lower_nonce(10), &nonce(11)), Ok(Outcome::False));
}

#[test]
fn and_true_only_when_both_true() {
    let p = and_of(lower_nonce(10), lower_nonce(5));
    assert_eq!(outcome(&p, &Witness::Operands(vec![nonce(3), nonce(4)])), Ok(Outcome::True));
    assert_eq!(outcome(&p, &Witness::Operands(vec![nonce(3), nonce(7)])), Ok(Outcome::False));
    assert_eq!(outcome(&p, &Witness::Operands(vec![nonce(30), nonce(4)])), Ok(Outcome::False));
}

#[test]
fn and_short_circuits_on_first_false() {
    let p = and_of(lower_nonce(10), lower_nonce(5));
    let d = decide(&registry(), &p, &Witness::Operands(vec![nonce(30)])).unwrap();
    assert_eq!(d.outcome, Outcome::False);
    assert_eq!(d.implication.len(), 1);
}

#[test]
fn and_undecided_and_malformed() {
    let p = and_of(lower_nonce(10), lower_nonce(5));
    assert_eq!(outcome(&p, &Witness::Operands(vec![Witness::Absent, nonce(4)])), Ok(Outcome::Undecided));
    assert_eq!(outcome(&p, &Witness::Operands(vec![Witness::Absent, nonce(9)])), Ok(Outcome::False));
    assert_eq!(outcome(&p, &Witness::Operands(vec![nonce(3)])), Err(DeciderError::ArityOrTypeMismatch));
    assert_eq!(
        outcome(&p, &Witness::Operands(vec![nonce(3), nonce(3), nonce(3)])),
        Err(DeciderError::ArityOrTypeMismatch)
    );
    assert_eq!(outcome(&p, &Witness::Absent), Ok(Outcome::Undecided));
}

#[test]
fn and_result_does_not_depend_on_order() {
    let p = and_of(lower_nonce(10), lower_nonce(5));
    let q = and_of(lower_nonce(5), lower_nonce(10));
    assert_eq!(
        outcome(&p, &Witness::Operands(vec![Witness::Absent, nonce(9)])),
        outcome(&q, &Witness::Operands(vec![nonce(9), Witness::Absent]))
    );
}

#[test]
fn decisions_carry_their_operands() {
    let p = not_of(lower_nonce(10));
    let d = decide(&registry(), &p, &Witness::Operands(vec![nonce(3)])).unwrap();
    assert_eq!(d.implication.len(), 1);
    assert_eq!(d.implication[0].outcome, Outcome::True);
    let q = and_of(lower_nonce(10), lower_nonce(5));
    let d = decide(&registry(), &q, &Witness::Operands(vec![nonce(3), Witness::Absent])).unwrap();
    assert_eq!(d.implication.len(), 2);
    assert_eq!(d.implication[1].outcome, Outcome::Undecided);
    let leaf = decide(&registry(), &lower_nonce(3), &nonce(1)).unwrap();
    assert_eq!(leaf.implication.len(), 0);
}

#[test]
fn not_flips_definite_outcomes() {
    let p = not_of(lower_nonce(10));
    assert_eq!(outcome(&p, &Witness::Operands(vec![nonce(3)])), Ok(Outcome::False));
    assert_eq!(outcome(&p, &Witness::Operands(vec![nonce(30)])), Ok(Outcome::True));
    assert_eq!(outcome(&p, &Witness::Operands(vec![Witness::Absent])), Ok(Outcome::Undecided));
    assert_eq!(outcome(&p, &Witness::Operands(vec![])), Err(DeciderError::ArityOrTypeMismatch));
}

fn for_all_below(start: u64, end: u64) -> Property {
    // inner(d): the witness nonce is lower than d
    let inner = Property { decider_id: addr(6), inputs: vec![] };
    Property {
        decider_id: addr(3),
        inputs: vec![
            PropertyInput::ConstantRange(Range { start, end }),
            PropertyInput::ConstantProperty(inner),
        ],
    }
}

#[test]
fn for_all_counterexample_confirmation_and_nothing() {
    let p = for_all_below(5, 8);
    let cx = Witness::Counterexample { element: 6, witness: Box::new(nonce(6)) };
    assert_eq!(outcome(&p, &cx), Ok(Outcome::False));
    let weak = Witness::Counterexample { element: 6, witness: Box::new(nonce(1)) };
    assert_eq!(outcome(&p, &weak), Ok(Outcome::Undecided));
    let all = Witness::Confirmation(vec![nonce(4), nonce(0), nonce(6)]);
    assert_eq!(outcome(&p, &all), Ok(Outcome::True));
    let one_bad = Witness::Confirmation(vec![nonce(4), nonce(9), nonce(6)]);
    assert_eq!(outcome(&p, &one_bad), Ok(Outcome::False));
    assert_eq!(outcome(&p, &Witness::Absent), Ok(Outcome::Undecided));
    let short = Witness::Confirmation(vec![nonce(4)]);
    assert_eq!(outcome(&p, &short), Err(DeciderError::ArityOrTypeMismatch));
}

#[test]
fn for_all_counterexample_outside_domain() {
    let p = for_all_below(5, 8);
    let cx = Witness::Counterexample { element: 8, witness: Box::new(nonce(9)) };
    assert_eq!(outcome(&p, &cx), Err(DeciderError::OutsideDomain));
}

const EMPTY_KECCAK: &str = "c5d2460186f7233c927e7db2dcc703c0e500b653ca82273b7bfad8045d85a470";

fn unhex(s: &str) -> Vec<u8> {
    (0..s.len()).step_by(2).map(|i| u8::from_str_radix(&s[i..i + 2], 16).unwrap()).collect()
}

fn keccak(data: &[u8]) -> Vec<u8> {
    let mut k = tiny_keccak::Keccak::v256();
    k.update(data);
    let mut out = [0u8; 32];
    k.finalize(&mut out);
    out.to_vec()
}

#[test]
fn preimage_exists_true_only_for_preimage() {
    let p = Property { decider_id: addr(5), inputs: vec![PropertyInput::ConstantBytes(unhex(EMPTY_KECCAK))] };
    assert_eq!(outcome(&p, &Witness::Preimage(vec![])), Ok(Outcome::True));
    assert_eq!(outcome(&p, &Witness::Preimage(b"a".to_vec())), Ok(Outcome::False));
    let q = Property { decider_id: addr(5), inputs: vec![PropertyInput::ConstantBytes(vec![])] };
    assert_eq!(outcome(&q, &Witness::Preimage(vec![])), Ok(Outcome::False));
}

fn signed(message: &[u8]) -> (Address, Vec<u8>) {
    let sk = libsecp256k1::SecretKey::parse(&[7u8; 32]).unwrap();
    let pk = libsecp256k1::PublicKey::from_secret_key(&sk).serialize();
    let signer = Address { bytes: keccak(&pk[1..])[12..].to_vec() };
    let digest = keccak(message);
    let msg = libsecp256k1::Message::parse_slice(&digest).unwrap();
    let (sig, rec) = libsecp256k1::sign(&msg, &sk);
    let mut bytes = sig.serialize().to_vec();
    bytes.push(rec.serialize() + 27);
    (signer, bytes)
}

fn signed_by(signer: Address, message: &[u8]) -> Property {
    Property {
        decider_id: addr(4),
        inputs: vec![PropertyInput::ConstantAddress(signer), PropertyInput::ConstantBytes(message.to_vec())],
    }
}

#[test]
fn signed_by_accepts_the_signer_only() {
    let message = b"transfer range 5..7";
    let (signer, sig) = signed(message);
    assert_eq!(outcome(&signed_by(signer, message), &Witness::Signature(sig.clone())), Ok(Outcome::True));
    assert_eq!(outcome(&signed_by(addr(9), message), &Witness::Signature(sig)), Ok(Outcome::False));
}

#[test]
fn signed_by_malformed_signature_is_an_error() {
    let message = b"transfer range 5..7";
    let (signer, sig) = signed(message);
    let short = sig[..64].to_vec();
    assert_eq!(
        outcome(&signed_by(signer.copy(), message), &Witness::Signature(short)),
        Err(DeciderError::SignatureDecode)
    );
    let mut bad_v = sig.clone();
    bad_v[64] = 40;
    assert_eq!(outcome(&signed_by(signer, message), &Witness::Signature(bad_v)), Err(DeciderError::SignatureDecode));
}

#[test]
fn unknown_decider_and_bad_shapes() {
    let p = Property { decider_id: addr(99), inputs: vec![] };
    assert_eq!(outcome(&p, &Witness::Absent), Err(DeciderError::UnknownDecider));
    let q = Property { decider_id: addr(6), inputs: vec![PropertyInput::ConstantBytes(vec![1])] };
    assert_eq!(outcome(&q, &nonce(1)), Err(DeciderError::ArityOrTypeMismatch));
    assert_eq!(outcome(&lower_nonce(3), &Witness::Preimage(vec![])), Err(DeciderError::ArityOrTypeMismatch));
}

#[test]
fn registry_lookup_first_match() {
    let mut reg = registry();
    reg.entries.push(RegistryEntry { id: addr(1), kind: DeciderKind::Not });
    assert_eq!(reg.lookup(&addr(1)), Some(DeciderKind::And));
    assert_eq!(reg.lookup(&addr(50)), None);
}
