//! Deciders: evaluation of a property tree against a witness.
use vstd::prelude::*;
use crate::crypto::{keccak256, keccak256_of, recover_public_key, recovered_key_of};
use crate::types::{bytes_equal, lemma_nested_view, Address, InputModel, Property, PropertyInput, PropertyModel, Range};

verus! {

broadcast use vstd::std_specs::vec::group_vec_axioms, vstd::seq::group_seq_axioms;

/// The closed set of decision rules.
#[derive(Clone, Copy, Debug, PartialEq, Eq, Structural)]
pub enum DeciderKind {
    And,
    Not,
    ForAllSuchThat,
    SignedBy,
    PreimageExists,
    HasLowerNonce,
}

/// Outcome of one evaluation.
#[derive(Clone, Copy, Debug, PartialEq, Eq, Structural)]
pub enum Outcome {
    True,
    False,
    Undecided,
}

/// Why a property could not be evaluated.
#[derive(Clone, Copy, Debug, PartialEq, Eq, Structural)]
pub enum DeciderError {
    /// No decider is registered under the property's id.
    UnknownDecider,
    /// The property's inputs, or the witness, do not have the expected shape.
    ArityOrTypeMismatch,
    /// A counterexample names an element outside the quantifier's domain.
    OutsideDomain,
    /// The signature witness cannot be parsed or recovered.
    SignatureDecode,
}

/// Evidence offered for a decision; its shape depends on the decider.
#[derive(Debug)]
pub enum Witness {
    /// No evidence: the claim stands undecided.
    Absent,
    /// One sub-witness per operand (`And`, in order; `Not`, exactly one).
    Operands(Vec<Witness>),
    /// One element of a quantifier's domain where the inner property fails.
    Counterexample { element: u64, witness: Box<Witness> },
    /// One sub-witness per element of a quantifier's domain, in order.
    Confirmation(Vec<Witness>),
    /// A 65-byte `r || s || v` signature.
    Signature(Vec<u8>),
    /// A candidate preimage.
    Preimage(Vec<u8>),
    /// A competing nonce with the data of its claim.
    Nonce { nonce: u64, claim: Vec<u8> },
}

/// Result of a successful evaluation, with the decisions of the operands.
#[derive(Debug)]
pub struct Decision {
    pub outcome: Outcome,
    pub implication: Vec<Decision>,
}

/// One registered decider.
#[derive(Debug)]
pub struct RegistryEntry {
    pub id: Address,
    pub kind: DeciderKind,
}

/// Maps decider ids to decision rules; the first matching entry wins.
#[derive(Debug)]
pub struct DeciderRegistry {
    pub entries: Vec<RegistryEntry>,
}

impl DeciderRegistry {
    pub open spec fn view(&self) -> Seq<(Seq<u8>, DeciderKind)> {
        Seq::new(self.entries@.len(), |i: int| (self.entries@[i].id@, self.entries@[i].kind))
    }

    /// Finds the decider registered under `id`.
    pub fn lookup(&self, id: &Address) -> (r: Option<DeciderKind>)
        ensures
            r == lookup(self@, id@),
    {
        let mut i: usize = 0;
        assert(self@.subrange(0, self@.len() as int) =~= self@);
        while i < self.entries.len()
            invariant
                i <= self.entries@.len(),
                lookup(self@, id@) == lookup(self@.subrange(i as int, self@.len() as int), id@),
            decreases self.entries@.len() - i,
        {
            let ghost rest = self@.subrange(i as int, self@.len() as int);
            assert(rest.subrange(1, rest.len() as int) =~= self@.subrange(i + 1, self@.len() as int));
            if self.entries[i].id.same(id) {
                return Some(self.entries[i].kind);
            }
            i = i + 1;
        }
        None
    }
}

/// The first decider registered under `id`.
pub open spec fn lookup(reg: Seq<(Seq<u8>, DeciderKind)>, id: Seq<u8>) -> Option<DeciderKind>
    decreases reg.len(),
{
    if reg.len() == 0 {
        None
    } else if reg[0].0 == id {
        Some(reg[0].1)
    } else {
        lookup(reg.subrange(1, reg.len() as int), id)
    }
}

pub open spec fn is_property_input(m: InputModel) -> bool {
    m is Property
}

/// Whether a property's inputs have the arity and tags that `kind` expects.
pub open spec fn shape_ok(kind: DeciderKind, p: PropertyModel) -> bool {
    match kind {
        DeciderKind::And => forall|i: int| 0 <= i < p.inputs.len() ==> is_property_input(#[trigger] p.inputs[i]),
        DeciderKind::Not => p.inputs.len() == 1 && p.inputs[0] is Property,
        DeciderKind::ForAllSuchThat => p.inputs.len() == 2 && p.inputs[0] is Range && p.inputs[1] is Property,
        DeciderKind::SignedBy => p.inputs.len() == 2 && p.inputs[0] is Address && p.inputs[1] is Bytes,
        DeciderKind::PreimageExists => p.inputs.len() == 1 && p.inputs[0] is Bytes,
        DeciderKind::HasLowerNonce => p.inputs.len() == 1 && p.inputs[0] is Integer,
    }
}

/// The nested property at input `i`.
pub open spec fn operand(p: PropertyModel, i: int) -> PropertyModel {
    p.inputs[i]->Property_0
}

/// The quantifier's domain.
pub open spec fn domain(p: PropertyModel) -> Range {
    p.inputs[0]->Range_0
}

/// The inner property of a quantifier instantiated at `d`: `d` is appended
/// to its inputs.
pub open spec fn instance(p: PropertyModel, d: u64) -> PropertyModel {
    let inner = operand(p, 1);
    PropertyModel { decider_id: inner.decider_id, inputs: inner.inputs.push(InputModel::Integer(d)) }
}

/// How many operands a conjunction-like rule has.
pub open spec fn conj_count(kind: DeciderKind, p: PropertyModel) -> int {
    if kind == DeciderKind::And {
        p.inputs.len() as int
    } else {
        domain(p).end - domain(p).start
    }
}

/// The `i`-th operand of a conjunction-like rule.
pub open spec fn conj_operand(kind: DeciderKind, p: PropertyModel, i: int) -> PropertyModel {
    if kind == DeciderKind::And {
        operand(p, i)
    } else {
        instance(p, (domain(p).start + i) as u64)
    }
}

/// The list of sub-witnesses of a conjunction-like witness.
pub open spec fn sub_witnesses(w: Witness) -> Seq<Witness> {
    match w {
        Witness::Operands(ws) => ws@,
        Witness::Confirmation(ws) => ws@,
        _ => Seq::empty(),
    }
}

pub open spec fn negate(o: Outcome) -> Outcome {
    match o {
        Outcome::True => Outcome::False,
        Outcome::False => Outcome::True,
        Outcome::Undecided => Outcome::Undecided,
    }
}

/// Address of the holder of an uncompressed public key: the last twenty bytes
/// of the digest of the key without its prefix byte.
pub open spec fn address_of_key(key: Seq<u8>) -> Seq<u8> {
    keccak256_of(key.subrange(1, key.len() as int)).subrange(12, 32)
}

/// Recovery id of a signature's last byte, accepting both `0..4` and `27..31`.
pub open spec fn recovery_id_of(v: u8) -> u8 {
    if v >= 27 {
        (v - 27) as u8
    } else {
        v
    }
}

/// Rule of `SignedBy`: does `sig` sign the digest of `message` by `signer`?
pub open spec fn signed_by_spec(signer: Seq<u8>, message: Seq<u8>, sig: Seq<u8>) -> Result<Outcome, DeciderError> {
    if sig.len() != 65 || recovery_id_of(sig[64]) >= 4 {
        Err(DeciderError::SignatureDecode)
    } else {
        match recovered_key_of(keccak256_of(message), sig.subrange(0, 64), recovery_id_of(sig[64])) {
            None => Err(DeciderError::SignatureDecode),
            Some(key) => Ok(
                if address_of_key(key) == signer {
                    Outcome::True
                } else {
                    Outcome::False
                },
            ),
        }
    }
}

/// Rule of `PreimageExists`.
pub open spec fn preimage_spec(commitment: Seq<u8>, candidate: Seq<u8>) -> Outcome {
    if keccak256_of(candidate) == commitment {
        Outcome::True
    } else {
        Outcome::False
    }
}

/// Rule of `HasLowerNonce`.
pub open spec fn lower_nonce_spec(reference: u64, nonce: u64) -> Outcome {
    if nonce < reference {
        Outcome::True
    } else {
        Outcome::False
    }
}

/// What evaluating `p` against `w` yields.
pub open spec fn decide_spec(reg: Seq<(Seq<u8>, DeciderKind)>, p: PropertyModel, w: Witness) -> Result<Outcome, DeciderError>
    decreases w, 1nat, 0nat,
{
    match lookup(reg, p.decider_id) {
        None => Err(DeciderError::UnknownDecider),
        Some(kind) => if !shape_ok(kind, p) {
            Err(DeciderError::ArityOrTypeMismatch)
        } else if w is Absent {
            Ok(Outcome::Undecided)
        } else {
            match kind {
                DeciderKind::And => if w is Operands && sub_witnesses(w).len() <= p.inputs.len() {
                    conj_from(reg, kind, p, w, 0, false)
                } else {
                    Err(DeciderError::ArityOrTypeMismatch)
                },
                DeciderKind::Not => match w {
                    Witness::Operands(ws) => if ws@.len() == 1 {
                        match decide_spec(reg, operand(p, 0), ws@[0]) {
                            Ok(o) => Ok(negate(o)),
                            Err(e) => Err(e),
                        }
                    } else {
                        Err(DeciderError::ArityOrTypeMismatch)
                    },
                    _ => Err(DeciderError::ArityOrTypeMismatch),
                },
                DeciderKind::ForAllSuchThat => match w {
                    Witness::Counterexample { element, witness } => if domain(p).start <= element
                        && element < domain(p).end {
                        match decide_spec(reg, instance(p, element), *witness) {
                            Ok(Outcome::False) => Ok(Outcome::False),
                            Ok(_) => Ok(Outcome::Undecided),
                            Err(e) => Err(e),
                        }
                    } else {
                        Err(DeciderError::OutsideDomain)
                    },
                    Witness::Confirmation(ws) => if ws@.len() == domain(p).end - domain(p).start {
                        conj_from(reg, kind, p, w, 0, false)
                    } else {
                        Err(DeciderError::ArityOrTypeMismatch)
                    },
                    _ => Err(DeciderError::ArityOrTypeMismatch),
                },
                DeciderKind::SignedBy => match w {
                    Witness::Signature(sig) => signed_by_spec(
                        p.inputs[0]->Address_0,
                        p.inputs[1]->Bytes_0,
                        sig@,
                    ),
                    _ => Err(DeciderError::ArityOrTypeMismatch),
                },
                DeciderKind::PreimageExists => match w {
                    Witness::Preimage(x) => Ok(preimage_spec(p.inputs[0]->Bytes_0, x@)),
                    _ => Err(DeciderError::ArityOrTypeMismatch),
                },
                DeciderKind::HasLowerNonce => match w {
                    Witness::Nonce { nonce, .. } => Ok(lower_nonce_spec(p.inputs[0]->Integer_0, nonce)),
                    _ => Err(DeciderError::ArityOrTypeMismatch),
                },
            }
        },
    }
}

/// Conjunction of operands `i..` of a conjunction-like rule, evaluated in
/// order: the first error or `False` ends it; `undecided` records an earlier
/// `Undecided`. Operands past the end of the witness list may be left out only
/// after a `False`.
pub open spec fn conj_from(
    reg: Seq<(Seq<u8>, DeciderKind)>,
    kind: DeciderKind,
    p: PropertyModel,
    w: Witness,
    i: nat,
    undecided: bool,
) -> Result<Outcome, DeciderError>
    decreases w, 0nat, conj_count(kind, p) - i,
{
    if i >= conj_count(kind, p) {
        Ok(
            if undecided {
                Outcome::Undecided
            } else {
                Outcome::True
            },
        )
    } else if i >= sub_witnesses(w).len() {
        Err(DeciderError::ArityOrTypeMismatch)
    } else {
        match decide_spec(reg, conj_operand(kind, p, i as int), sub_witnesses(w)[i as int]) {
            Err(e) => Err(e),
            Ok(Outcome::False) => Ok(Outcome::False),
            Ok(Outcome::True) => conj_from(reg, kind, p, w, i + 1, undecided),
            Ok(Outcome::Undecided) => conj_from(reg, kind, p, w, i + 1, true),
        }
    }
}

/// Outcome carried by an evaluation result.
pub open spec fn outcome_of(r: Result<Decision, DeciderError>) -> Result<Outcome, DeciderError> {
    match r {
        Ok(d) => Ok(d.outcome),
        Err(e) => Err(e),
    }
}

/// Each sub-decision records the outcome of the matching operand of a
/// conjunction-like rule, evaluated in order against the sub-witnesses `ws`.
pub open spec fn sub_decisions_match(
    reg: Seq<(Seq<u8>, DeciderKind)>,
    kind: DeciderKind,
    p: PropertyModel,
    ws: Seq<Witness>,
    imp: Seq<Decision>,
) -> bool {
    &&& imp.len() <= ws.len()
    &&& forall|j: int|
        0 <= j < imp.len() ==> decide_spec(reg, conj_operand(kind, p, j), ws[j]) == Ok::<Outcome, DeciderError>(
            (#[trigger] imp[j]).outcome,
        )
}

/// What the implication chain of a decision on `p` and `w` holds: the
/// decisions of the operands that were evaluated, in order; nothing for a
/// rule without operands or for an absent witness.
pub open spec fn implication_spec(reg: Seq<(Seq<u8>, DeciderKind)>, p: PropertyModel, w: Witness, imp: Seq<Decision>) -> bool {
    if w is Absent {
        imp.len() == 0
    } else {
        match lookup(reg, p.decider_id) {
            Some(DeciderKind::And) => sub_decisions_match(reg, DeciderKind::And, p, sub_witnesses(w), imp),
            Some(DeciderKind::Not) => imp.len() == 1 && sub_decisions_match(
                reg,
                DeciderKind::And,
                p,
                sub_witnesses(w),
                imp,
            ),
            Some(DeciderKind::ForAllSuchThat) => match w {
                Witness::Counterexample { element, witness } => imp.len() == 1 && decide_spec(
                    reg,
                    instance(p, element),
                    *witness,
                ) == Ok::<Outcome, DeciderError>(imp[0].outcome),
                _ => sub_decisions_match(reg, DeciderKind::ForAllSuchThat, p, sub_witnesses(w), imp),
            },
            _ => imp.len() == 0,
        }
    }
}

/// The bytes of `v` in `[lo, hi)`.
pub fn sub_bytes(v: &Vec<u8>, lo: usize, hi: usize) -> (r: Vec<u8>)
    requires
        lo <= hi <= v@.len(),
    ensures
        r@ == v@.subrange(lo as int, hi as int),
{
    let mut r: Vec<u8> = Vec::new();
    let mut i: usize = lo;
    while i < hi
        invariant
            lo <= i <= hi <= v@.len(),
            r@ == v@.subrange(lo as int, i as int),
        decreases hi - i,
    {
        r.push(v[i]);
        i = i + 1;
        assert(r@ =~= v@.subrange(lo as int, i as int));
    }
    r
}

/// Rule of `SignedBy` on concrete bytes.
pub fn signed_by(signer: &Address, message: &Vec<u8>, sig: &Vec<u8>) -> (r: Result<Outcome, DeciderError>)
    ensures
        r == signed_by_spec(signer@, message@, sig@),
{
    if sig.len() != 65 {
        return Err(DeciderError::SignatureDecode);
    }
    let v = sig[64];
    let rec: u8 = if v >= 27 { v - 27 } else { v };
    if rec >= 4 {
        return Err(DeciderError::SignatureDecode);
    }
    let digest = keccak256(message.as_slice());
    let rs = sub_bytes(sig, 0, 64);
    match recover_public_key(digest.as_slice(), rs.as_slice(), rec) {
        None => Err(DeciderError::SignatureDecode),
        Some(key) => {
            let tail = sub_bytes(&key, 1, 65);
            let hash = keccak256(tail.as_slice());
            let addr = sub_bytes(&hash, 12, 32);
            if bytes_equal(&addr, &signer.bytes) {
                Ok(Outcome::True)
            } else {
                Ok(Outcome::False)
            }
        },
    }
}

/// Compares two byte strings of equal length by visiting every byte, so that
/// the time taken does not reveal where they first differ.
pub fn bytes_equal_all(a: &Vec<u8>, b: &Vec<u8>) -> (r: bool)
    ensures
        r == (a@ == b@),
{
    if a.len() != b.len() {
        return false;
    }
    let mut same = true;
    let mut i: usize = 0;
    while i < a.len()
        invariant
            a@.len() == b@.len(),
            i <= a@.len(),
            same == (forall|j: int| 0 <= j < i ==> a@[j] == b@[j]),
        decreases a@.len() - i,
    {
        let eq = a[i] == b[i];
        same = same && eq;
        i = i + 1;
    }
    if same {
        assert(a@ =~= b@);
    }
    same
}

/// Rule of `PreimageExists` on concrete bytes.
pub fn preimage_exists(commitment: &Vec<u8>, candidate: &Vec<u8>) -> (r: Outcome)
    ensures
        r == preimage_spec(commitment@, candidate@),
{
    let h = keccak256(candidate.as_slice());
    if bytes_equal_all(&h, commitment) {
        Outcome::True
    } else {
        Outcome::False
    }
}

/// Rule of `HasLowerNonce`.
pub fn has_lower_nonce(reference: u64, nonce: u64) -> (r: Outcome)
    ensures
        r == lower_nonce_spec(reference, nonce),
{
    if nonce < reference {
        Outcome::True
    } else {
        Outcome::False
    }
}

/// Whether `p`'s inputs have the arity and tags that `kind` expects.
pub fn check_shape(kind: DeciderKind, p: &Property) -> (r: bool)
    ensures
        r == shape_ok(kind, p@),
{
    let n = p.inputs.len();
    match kind {
        DeciderKind::And => {
            let mut i: usize = 0;
            while i < n
                invariant
                    n == p.inputs@.len(),
                    n == p@.inputs.len(),
                    kind == DeciderKind::And,
                    i <= n,
                    forall|j: int| 0 <= j < i ==> is_property_input(#[trigger] p@.inputs[j]),
                decreases n - i,
            {
                if !matches!(p.inputs[i], PropertyInput::ConstantProperty(_)) {
                    assert(p@.inputs[i as int] == p.inputs@[i as int]@);
                    assert(!is_property_input(p@.inputs[i as int]));

                    return false;
                }
                i = i + 1;
            }
            true
        },
        DeciderKind::Not => n == 1 && matches!(p.inputs[0], PropertyInput::ConstantProperty(_)),
        DeciderKind::ForAllSuchThat => n == 2 && matches!(p.inputs[0], PropertyInput::ConstantRange(_))
            && matches!(p.inputs[1], PropertyInput::ConstantProperty(_)),
        DeciderKind::SignedBy => n == 2 && matches!(p.inputs[0], PropertyInput::ConstantAddress(_))
            && matches!(p.inputs[1], PropertyInput::ConstantBytes(_)),
        DeciderKind::PreimageExists => n == 1 && matches!(p.inputs[0], PropertyInput::ConstantBytes(_)),
        DeciderKind::HasLowerNonce => n == 1 && matches!(p.inputs[0], PropertyInput::ConstantInteger(_)),
    }
}

/// A copy of the nested property at input `i`.
fn operand_exec(p: &Property, i: usize) -> (r: Property)
    requires
        i < p.inputs@.len(),
        p@.inputs[i as int] is Property,
    ensures
        r@ == operand(p@, i as int),
{
    match &p.inputs[i] {
        PropertyInput::ConstantProperty(q) => {
            proof {
                lemma_nested_view(*q);
            }
            q.copy()
        },
        _ => p.copy(),
    }
}

/// The inner property of a quantifier instantiated at `d`.
fn instance_exec(p: &Property, d: u64) -> (r: Property)
    requires
        shape_ok(DeciderKind::ForAllSuchThat, p@),
    ensures
        r@ == instance(p@, d),
{
    let mut q = operand_exec(p, 1);
    let ghost before = q@;
    q.inputs.push(PropertyInput::ConstantInteger(d));
    assert(q@.inputs =~= before.inputs.push(InputModel::Integer(d)));
    q
}

/// Evaluates `p` against `w`, looking each nested property's decider up in
/// `reg`.
pub fn decide(reg: &DeciderRegistry, p: &Property, w: &Witness) -> (r: Result<Decision, DeciderError>)
    ensures
        outcome_of(r) == decide_spec(reg@, p@, *w),
        r matches Ok(d) ==> implication_spec(reg@, p@, *w, d.implication@),
    decreases w, 1nat,
{
    let kind = match reg.lookup(&p.decider_id) {
        None => return Err(DeciderError::UnknownDecider),
        Some(k) => k,
    };
    if !check_shape(kind, p) {
        return Err(DeciderError::ArityOrTypeMismatch);
    }
    match w {
        Witness::Absent => Ok(leaf(Outcome::Undecided)),
        Witness::Operands(ws) => match kind {
            DeciderKind::And => {
                if ws.len() > p.inputs.len() {
                    return Err(DeciderError::ArityOrTypeMismatch);
                }
                decide_conjunction(reg, kind, p, w, ws, p.inputs.len())
            },
            DeciderKind::Not => {
                if ws.len() != 1 {
                    return Err(DeciderError::ArityOrTypeMismatch);
                }
                let q = operand_exec(p, 0);
                let sub = decide(reg, &q, &ws[0])?;
                let mut implication: Vec<Decision> = Vec::new();
                let outcome = match sub.outcome {
                    Outcome::True => Outcome::False,
                    Outcome::False => Outcome::True,
                    Outcome::Undecided => Outcome::Undecided,
                };
                let ghost so = sub.outcome;
                implication.push(sub);
                proof {
                    assert(conj_operand(DeciderKind::And, p@, 0) == q@);
                    assert(implication@[0].outcome == so);
                    assert(sub_decisions_match(reg@, DeciderKind::And, p@, ws@, implication@));
                }
                Ok(Decision { outcome, implication })
            },
            _ => Err(DeciderError::ArityOrTypeMismatch),
        },
        Witness::Counterexample { element, witness } => match kind {
            DeciderKind::ForAllSuchThat => {
                let dom = match &p.inputs[0] {
                    PropertyInput::ConstantRange(d) => *d,
                    _ => return Err(DeciderError::ArityOrTypeMismatch),
                };
                if !(dom.start <= *element && *element < dom.end) {
                    return Err(DeciderError::OutsideDomain);
                }
                let q = instance_exec(p, *element);
                let sub = decide(reg, &q, witness)?;
                let outcome = match sub.outcome {
                    Outcome::False => Outcome::False,
                    _ => Outcome::Undecided,
                };
                let ghost so = sub.outcome;
                let mut implication: Vec<Decision> = Vec::new();
                implication.push(sub);
                assert(implication@[0].outcome == so);
                Ok(Decision { outcome, implication })
            },
            _ => Err(DeciderError::ArityOrTypeMismatch),
        },
        Witness::Confirmation(ws) => match kind {
            DeciderKind::ForAllSuchThat => {
                let dom = match &p.inputs[0] {
                    PropertyInput::ConstantRange(d) => *d,
                    _ => return Err(DeciderError::ArityOrTypeMismatch),
                };
                if dom.start > dom.end || ws.len() as u64 != dom.end - dom.start {
                    return Err(DeciderError::ArityOrTypeMismatch);
                }
                decide_conjunction(reg, kind, p, w, ws, ws.len())
            },
            _ => Err(DeciderError::ArityOrTypeMismatch),
        },
        Witness::Signature(sig) => match kind {
            DeciderKind::SignedBy => match (&p.inputs[0], &p.inputs[1]) {
                (PropertyInput::ConstantAddress(signer), PropertyInput::ConstantBytes(message)) => {
                    let outcome = signed_by(signer, message, sig)?;
                    Ok(leaf(outcome))
                },
                _ => Err(DeciderError::ArityOrTypeMismatch),
            },
            _ => Err(DeciderError::ArityOrTypeMismatch),
        },
        Witness::Preimage(x) => match kind {
            DeciderKind::PreimageExists => match &p.inputs[0] {
                PropertyInput::ConstantBytes(commitment) => Ok(leaf(preimage_exists(commitment, x))),
                _ => Err(DeciderError::ArityOrTypeMismatch),
            },
            _ => Err(DeciderError::ArityOrTypeMismatch),
        },
        Witness::Nonce { nonce, .. } => match kind {
            DeciderKind::HasLowerNonce => match &p.inputs[0] {
                PropertyInput::ConstantInteger(reference) => Ok(leaf(has_lower_nonce(*reference, *nonce))),
                _ => Err(DeciderError::ArityOrTypeMismatch),
            },
            _ => Err(DeciderError::ArityOrTypeMismatch),
        },
    }
}

/// Evaluates the operands of an `And`, or the instances of a quantifier over
/// its whole domain, in order, against the sub-witnesses `ws` of `w`.
fn decide_conjunction(
    reg: &DeciderRegistry,
    kind: DeciderKind,
    p: &Property,
    w: &Witness,
    ws: &Vec<Witness>,
    n: usize,
) -> (r: Result<Decision, DeciderError>)
    requires
        kind == DeciderKind::And || kind == DeciderKind::ForAllSuchThat,
        shape_ok(kind, p@),
        ws@ == sub_witnesses(*w),
        n == conj_count(kind, p@),
        kind == DeciderKind::ForAllSuchThat ==> ws@.len() == n,
    ensures
        outcome_of(r) == conj_from(reg@, kind, p@, *w, 0, false),
        r matches Ok(d) ==> sub_decisions_match(reg@, kind, p@, ws@, d.implication@),
    decreases w, 0nat,
{
    let mut start: u64 = 0;
    if kind == DeciderKind::ForAllSuchThat {
        if let PropertyInput::ConstantRange(d) = &p.inputs[0] {
            start = d.start;
        }
    }
    let mut i: usize = 0;
    let mut undecided = false;
    let mut implication: Vec<Decision> = Vec::new();
    while i < n
        invariant
            kind == DeciderKind::And || kind == DeciderKind::ForAllSuchThat,
            shape_ok(kind, p@),
            ws@ == sub_witnesses(*w),
            n == conj_count(kind, p@),
            kind == DeciderKind::ForAllSuchThat ==> ws@.len() == n && start == domain(p@).start,
            i <= n,
            conj_from(reg@, kind, p@, *w, 0, false) == conj_from(reg@, kind, p@, *w, i as nat, undecided),
            implication@.len() == i,
            i <= ws@.len() || n == 0,
            sub_decisions_match(reg@, kind, p@, ws@, implication@),
        decreases n - i,
    {
        if i >= ws.len() {
            return Err(DeciderError::ArityOrTypeMismatch);
        }
        let q = if kind == DeciderKind::And {
            operand_exec(p, i)
        } else {
            instance_exec(p, start + i as u64)
        };
        let sub = decide(reg, &q, &ws[i])?;
        match sub.outcome {
            Outcome::False => {
                implication.push(sub);
                return Ok(Decision { outcome: Outcome::False, implication });
            },
            Outcome::True => {},
            Outcome::Undecided => {
                undecided = true;
            },
        }
        implication.push(sub);
        i = i + 1;
    }
    let outcome = if undecided {
        Outcome::Undecided
    } else {
        Outcome::True
    };
    Ok(Decision { outcome, implication })
}

fn leaf(outcome: Outcome) -> (r: Decision)
    ensures
        r.outcome == outcome,
        r.implication@.len() == 0,
{
    Decision { outcome, implication: Vec::new() }
}

} // verus!
