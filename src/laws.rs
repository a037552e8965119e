//! Laws of the deciders, stated over the evaluation model.
use vstd::prelude::*;
use crate::crypto::keccak256_of;
use crate::decider::{
    conj_count, conj_from, conj_operand, decide_spec, domain, instance, lookup, shape_ok,
    sub_witnesses, DeciderError, DeciderKind, Outcome, Witness,
};
use crate::types::{InputModel, PropertyModel, Range};

verus! {

/// A definite evaluation result.
pub open spec fn decided(o: Outcome) -> Result<Outcome, DeciderError> {
    Ok(o)
}

/// A refused evaluation.
pub open spec fn refused(e: DeciderError) -> Result<Outcome, DeciderError> {
    Err(e)
}

/// A property with decider `id` whose inputs are the nested properties `left`, `right`.
pub open spec fn pair_of(id: Seq<u8>, left: PropertyModel, right: PropertyModel) -> PropertyModel {
    PropertyModel { decider_id: id, inputs: seq![InputModel::Property(left), InputModel::Property(right)] }
}

/// `And` of two properties is `True` exactly when both are `True`, and
/// `False` when either is `False` while the other decides; when the first is
/// `False` the second is not needed at all. Swapping the operands, with their
/// witnesses, does not change a result on which both decide.
pub proof fn law_and_of_two(
    reg: Seq<(Seq<u8>, DeciderKind)>,
    id: Seq<u8>,
    left: PropertyModel,
    right: PropertyModel,
    w: Witness,
    v: Witness,
)
    requires
        lookup(reg, id) == Some(DeciderKind::And),
        w is Operands,
        sub_witnesses(w).len() == 2,
        v is Operands,
        sub_witnesses(v) == seq![sub_witnesses(w)[1], sub_witnesses(w)[0]],
    ensures
        ({
            let r1 = decide_spec(reg, left, sub_witnesses(w)[0]);
            let r2 = decide_spec(reg, right, sub_witnesses(w)[1]);
            let r = decide_spec(reg, pair_of(id, left, right), w);
            &&& (r == decided(Outcome::True) <==> (r1 == decided(Outcome::True) && r2 == decided(Outcome::True)))
            &&& (r1 == decided(Outcome::False) ==> r == decided(Outcome::False))
            &&& (r1 is Ok && r2 == decided(Outcome::False) ==> r == decided(Outcome::False))
            &&& (r1 is Ok && r2 is Ok ==> r == decide_spec(reg, pair_of(id, right, left), v))
        }),
{
    let p = pair_of(id, left, right);
    let q = pair_of(id, right, left);
    let ws = sub_witnesses(w);
    assert(shape_ok(DeciderKind::And, p));
    assert(shape_ok(DeciderKind::And, q));
    assert(conj_operand(DeciderKind::And, p, 0) == left);
    assert(conj_operand(DeciderKind::And, p, 1) == right);
    assert(conj_operand(DeciderKind::And, q, 0) == right);
    assert(conj_operand(DeciderKind::And, q, 1) == left);
    assert(conj_count(DeciderKind::And, p) == 2);
    assert(conj_count(DeciderKind::And, q) == 2);
    assert(decide_spec(reg, p, w) == conj_from(reg, DeciderKind::And, p, w, 0, false));
    assert(decide_spec(reg, q, v) == conj_from(reg, DeciderKind::And, q, v, 0, false));
    assert(sub_witnesses(v)[0] == ws[1]);
    assert(sub_witnesses(v)[1] == ws[0]);
    reveal_with_fuel(conj_from, 3);
}

/// `And` with only the first sub-witness: a `False` first operand decides it.
pub proof fn law_and_short_circuit(
    reg: Seq<(Seq<u8>, DeciderKind)>,
    id: Seq<u8>,
    left: PropertyModel,
    right: PropertyModel,
    w: Witness,
)
    requires
        lookup(reg, id) == Some(DeciderKind::And),
        w is Operands,
        sub_witnesses(w).len() == 1,
        decide_spec(reg, left, sub_witnesses(w)[0]) == decided(Outcome::False),
    ensures
        decide_spec(reg, pair_of(id, left, right), w) == decided(Outcome::False),
{
    let p = pair_of(id, left, right);
    assert(shape_ok(DeciderKind::And, p));
    assert(conj_operand(DeciderKind::And, p, 0) == left);
    assert(conj_count(DeciderKind::And, p) == 2);
    assert(decide_spec(reg, p, w) == conj_from(reg, DeciderKind::And, p, w, 0, false));
    assert(conj_from(reg, DeciderKind::And, p, w, 0, false) == decided(Outcome::False));
}

/// `Not` flips a definite outcome and keeps `Undecided` (and errors).
pub proof fn law_not(reg: Seq<(Seq<u8>, DeciderKind)>, id: Seq<u8>, q: PropertyModel, w: Witness)
    requires
        lookup(reg, id) == Some(DeciderKind::Not),
        w is Operands,
        sub_witnesses(w).len() == 1,
    ensures
        ({
            let inner = decide_spec(reg, q, sub_witnesses(w)[0]);
            let r = decide_spec(
                reg,
                PropertyModel { decider_id: id, inputs: seq![InputModel::Property(q)] },
                w,
            );
            &&& (inner == decided(Outcome::True) ==> r == decided(Outcome::False))
            &&& (inner == decided(Outcome::False) ==> r == decided(Outcome::True))
            &&& (inner == decided(Outcome::Undecided) ==> r == decided(Outcome::Undecided))
            &&& (inner is Err ==> r == inner)
        }),
{
    let p = PropertyModel { decider_id: id, inputs: seq![InputModel::Property(q)] };
    assert(shape_ok(DeciderKind::Not, p));
}

/// A quantifier over `dom` of `inner`.
pub open spec fn for_all_of(id: Seq<u8>, dom: Range, inner: PropertyModel) -> PropertyModel {
    PropertyModel { decider_id: id, inputs: seq![InputModel::Range(dom), InputModel::Property(inner)] }
}

/// One counterexample inside the domain, shown `False`, makes the quantifier
/// `False`; with no evidence the quantifier is `Undecided`.
pub proof fn law_for_all_counterexample(
    reg: Seq<(Seq<u8>, DeciderKind)>,
    id: Seq<u8>,
    dom: Range,
    inner: PropertyModel,
    w: Witness,
)
    requires
        lookup(reg, id) == Some(DeciderKind::ForAllSuchThat),
        w is Counterexample,
        dom.start <= w->element < dom.end,
        decide_spec(reg, instance(for_all_of(id, dom, inner), w->element), *w->witness)
            == decided(Outcome::False),
    ensures
        decide_spec(reg, for_all_of(id, dom, inner), w) == decided(Outcome::False),
        decide_spec(reg, for_all_of(id, dom, inner), Witness::Absent) == decided(
            Outcome::Undecided,
        ),
{
    assert(shape_ok(DeciderKind::ForAllSuchThat, for_all_of(id, dom, inner)));
}

/// A counterexample outside the domain is refused.
pub proof fn law_for_all_outside_domain(
    reg: Seq<(Seq<u8>, DeciderKind)>,
    id: Seq<u8>,
    dom: Range,
    inner: PropertyModel,
    w: Witness,
)
    requires
        lookup(reg, id) == Some(DeciderKind::ForAllSuchThat),
        w is Counterexample,
        !(dom.start <= w->element < dom.end),
    ensures
        decide_spec(reg, for_all_of(id, dom, inner), w) == refused(
            DeciderError::OutsideDomain,
        ),
{
    assert(shape_ok(DeciderKind::ForAllSuchThat, for_all_of(id, dom, inner)));
}

proof fn lemma_conj_all_true(reg: Seq<(Seq<u8>, DeciderKind)>, kind: DeciderKind, p: PropertyModel, w: Witness, i: nat)
    requires
        sub_witnesses(w).len() >= conj_count(kind, p),
        forall|j: int|
            i <= j < conj_count(kind, p) ==> decide_spec(reg, conj_operand(kind, p, j), #[trigger] sub_witnesses(w)[j])
                == decided(Outcome::True),
    ensures
        conj_from(reg, kind, p, w, i, false) == decided(Outcome::True),
    decreases conj_count(kind, p) - i,
{
    if i < conj_count(kind, p) {
        lemma_conj_all_true(reg, kind, p, w, i + 1);
    }
}

/// A confirmation that shows the inner property `True` at every element of
/// the domain makes the quantifier `True`.
pub proof fn law_for_all_confirmation(
    reg: Seq<(Seq<u8>, DeciderKind)>,
    id: Seq<u8>,
    dom: Range,
    inner: PropertyModel,
    w: Witness,
)
    requires
        lookup(reg, id) == Some(DeciderKind::ForAllSuchThat),
        w is Confirmation,
        dom.start <= dom.end,
        sub_witnesses(w).len() == dom.end - dom.start,
        forall|j: int|
            0 <= j < dom.end - dom.start ==> decide_spec(
                reg,
                instance(for_all_of(id, dom, inner), (dom.start + j) as u64),
                #[trigger] sub_witnesses(w)[j],
            ) == decided(Outcome::True),
    ensures
        decide_spec(reg, for_all_of(id, dom, inner), w) == decided(Outcome::True),
{
    let p = for_all_of(id, dom, inner);
    assert(shape_ok(DeciderKind::ForAllSuchThat, p));
    assert(domain(p) == dom);
    assert forall|j: int| 0 <= j < conj_count(DeciderKind::ForAllSuchThat, p) implies decide_spec(
        reg,
        conj_operand(DeciderKind::ForAllSuchThat, p, j),
        #[trigger] sub_witnesses(w)[j],
    ) == decided(Outcome::True) by {
        assert(conj_operand(DeciderKind::ForAllSuchThat, p, j) == instance(p, (dom.start + j) as u64));
    }
    lemma_conj_all_true(reg, DeciderKind::ForAllSuchThat, p, w, 0);
}

/// A property checking a signature by `signer` over `message`.
pub open spec fn signed_by_of(id: Seq<u8>, signer: Seq<u8>, message: Seq<u8>) -> PropertyModel {
    PropertyModel { decider_id: id, inputs: seq![InputModel::Address(signer), InputModel::Bytes(message)] }
}

/// A signature that is `True` for one declared signer is `False` for any
/// other; a signature that is not 65 bytes long is a decode error.
pub proof fn law_signed_by(
    reg: Seq<(Seq<u8>, DeciderKind)>,
    id: Seq<u8>,
    a: Seq<u8>,
    b: Seq<u8>,
    message: Seq<u8>,
    w: Witness,
)
    requires
        lookup(reg, id) == Some(DeciderKind::SignedBy),
        w is Signature,
    ensures
        decide_spec(reg, signed_by_of(id, a, message), w) == decided(Outcome::True) && a
            != b ==> decide_spec(reg, signed_by_of(id, b, message), w) == decided(
            Outcome::False,
        ),
        (w->Signature_0)@.len() != 65 ==> decide_spec(reg, signed_by_of(id, a, message), w) == refused(DeciderError::SignatureDecode),
{
    assert(shape_ok(DeciderKind::SignedBy, signed_by_of(id, a, message)));
    assert(shape_ok(DeciderKind::SignedBy, signed_by_of(id, b, message)));
}

/// A preimage commitment is `True` exactly for witnesses that hash to it, and
/// `False` for every other.
pub proof fn law_preimage(reg: Seq<(Seq<u8>, DeciderKind)>, id: Seq<u8>, h: Seq<u8>, w: Witness)
    requires
        lookup(reg, id) == Some(DeciderKind::PreimageExists),
        w is Preimage,
    ensures
        ({
            let r = decide_spec(reg, PropertyModel { decider_id: id, inputs: seq![InputModel::Bytes(h)] }, w);
            &&& (keccak256_of((w->Preimage_0)@) == h ==> r == decided(Outcome::True))
            &&& (keccak256_of((w->Preimage_0)@) != h ==> r == decided(Outcome::False))
        }),
{
    assert(shape_ok(DeciderKind::PreimageExists, PropertyModel { decider_id: id, inputs: seq![InputModel::Bytes(h)] }));
}

} // verus!
