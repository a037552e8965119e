//! Core values: addresses, ranges, properties and the error kinds.
use vstd::prelude::*;

verus! {

broadcast use vstd::std_specs::vec::group_vec_axioms, vstd::seq::group_seq_axioms;

/// Number of bytes in an account address.
pub const ADDRESS_LEN: usize = 20;

/// A 20-byte account identifier.
#[derive(Debug)]
pub struct Address {
    pub bytes: Vec<u8>,
}

impl Address {
    pub open spec fn view(&self) -> Seq<u8> {
        self.bytes@
    }

    pub open spec fn wf(&self) -> bool {
        self.bytes@.len() == ADDRESS_LEN
    }

    /// Builds an address from exactly twenty bytes.
    pub fn from_bytes(bytes: Vec<u8>) -> (r: Option<Address>)
        ensures
            r is Some <==> bytes@.len() == ADDRESS_LEN,
            r matches Some(a) ==> a@ == bytes@,
    {
        if bytes.len() == ADDRESS_LEN {
            Some(Address { bytes })
        } else {
            None
        }
    }

    /// The all-zero address.
    pub fn zero() -> (r: Address)
        ensures
            r.wf(),
            r@ == Seq::new(20, |i: int| 0u8),
    {
        let mut bytes: Vec<u8> = Vec::new();
        while bytes.len() < ADDRESS_LEN
            invariant
                bytes@.len() <= ADDRESS_LEN,
                forall|i: int| 0 <= i < bytes@.len() ==> bytes@[i] == 0u8,
            decreases ADDRESS_LEN - bytes@.len(),
        {
            bytes.push(0u8);
        }
        let r = Address { bytes };
        assert(r@ =~= Seq::new(20, |i: int| 0u8));
        r
    }

    /// Structural equality of two addresses.
    pub fn same(&self, other: &Address) -> (r: bool)
        ensures
            r == (self@ == other@),
    {
        bytes_equal(&self.bytes, &other.bytes)
    }

    /// A copy holding the same bytes.
    pub fn copy(&self) -> (r: Address)
        ensures
            r@ == self@,
    {
        Address { bytes: copy_bytes(&self.bytes) }
    }
}

/// Compares two byte strings element by element.
pub fn bytes_equal(a: &Vec<u8>, b: &Vec<u8>) -> (r: bool)
    ensures
        r == (a@ == b@),
{
    if a.len() != b.len() {
        return false;
    }
    let mut i: usize = 0;
    while i < a.len()
        invariant
            a@.len() == b@.len(),
            i <= a@.len(),
            forall|j: int| 0 <= j < i ==> a@[j] == b@[j],
        decreases a@.len() - i,
    {
        if a[i] != b[i] {
            return false;
        }
        i = i + 1;
    }
    assert(a@ =~= b@);
    true
}

/// A fresh vector holding the same bytes.
pub fn copy_bytes(a: &Vec<u8>) -> (r: Vec<u8>)
    ensures
        r@ == a@,
{
    let mut r: Vec<u8> = Vec::new();
    let mut i: usize = 0;
    while i < a.len()
        invariant
            i <= a@.len(),
            r@ == a@.subrange(0, i as int),
        decreases a@.len() - i,
    {
        r.push(a[i]);
        i = i + 1;
        assert(r@ =~= a@.subrange(0, i as int));
    }
    assert(a@.subrange(0, a@.len() as int) =~= a@);
    r
}

/// Kinds of failure reported by the client layer.
#[derive(Clone, Copy, Debug, PartialEq, Eq, Structural)]
pub enum ErrorKind {
    Io,
    AbiDecode,
    PlasmaCoreError,
    PlasmaDbError,
    ContractError,
    InvalidTransaction,
    MerkelizingError,
}

/// The half-open interval `[start, end)` of token ids.
#[derive(Clone, Copy, Debug, PartialEq, Eq, Structural)]
pub struct Range {
    pub start: u64,
    pub end: u64,
}

impl Range {
    pub open spec fn wf(&self) -> bool {
        self.start < self.end
    }

    /// Whether `self` lies inside `outer`.
    pub open spec fn within(&self, outer: Range) -> bool {
        outer.start <= self.start && self.end <= outer.end
    }

    /// Builds `[start, end)`; an empty or reversed interval is refused.
    pub fn new(start: u64, end: u64) -> (r: Result<Range, ErrorKind>)
        ensures
            r is Ok <==> start < end,
            r matches Ok(x) ==> x.start == start && x.end == end,
            r matches Err(e) ==> e == ErrorKind::PlasmaCoreError,
    {
        if start < end {
            Ok(Range { start, end })
        } else {
            Err(ErrorKind::PlasmaCoreError)
        }
    }

    pub fn get_start(&self) -> (r: u64)
        ensures
            r == self.start,
    {
        self.start
    }

    pub fn get_end(&self) -> (r: u64)
        ensures
            r == self.end,
    {
        self.end
    }

    /// Whether `self` is a subrange of `outer`.
    pub fn is_within(&self, outer: &Range) -> (r: bool)
        ensures
            r == self.within(*outer),
    {
        outer.start <= self.start && self.end <= outer.end
    }
}

/// One positional input of a property.
#[derive(Debug)]
pub enum PropertyInput {
    ConstantAddress(Address),
    ConstantInteger(u64),
    ConstantBytes(Vec<u8>),
    ConstantRange(Range),
    ConstantProperty(Property),
}

/// A predicate-tree node: the decider that evaluates it and its inputs.
#[derive(Debug)]
pub struct Property {
    pub decider_id: Address,
    pub inputs: Vec<PropertyInput>,
}

impl Property {
    pub open spec fn view(&self) -> PropertyModel {
        PropertyModel {
            decider_id: self.decider_id.bytes@,
            inputs: Seq::new(self.inputs@.len(), |i: int| self.inputs@[i]@),
        }
    }

    /// A deep copy with the same model.
    pub fn copy(&self) -> (r: Property)
        ensures
            r@ == self@,
        decreases self,
    {
        let mut inputs: Vec<PropertyInput> = Vec::new();
        let mut i: usize = 0;
        while i < self.inputs.len()
            invariant
                i <= self.inputs@.len(),
                inputs@.len() == i,
                forall|j: int| 0 <= j < i ==> #[trigger] inputs@[j]@ == self.inputs@[j]@,
            decreases self.inputs@.len() - i,
        {
            let c = self.inputs[i].copy();
            inputs.push(c);
            i = i + 1;
        }
        let r = Property { decider_id: self.decider_id.copy(), inputs };
        assert(r@.inputs =~= self@.inputs);
        r
    }
}

/// Whether every address in the input is twenty bytes long and every range
/// in it is non-empty.
pub open spec fn input_wf(m: InputModel) -> bool
    decreases m, 1nat, 0nat,
{
    match m {
        InputModel::Address(a) => a.len() == 20,
        InputModel::Range(r) => r.wf(),
        InputModel::Property(p) => p.decider_id.len() == 20 && items_wf(m, 0),
        _ => true,
    }
}

/// Whether the inputs `i..` of the nested property `m` are well formed.
pub open spec fn items_wf(m: InputModel, i: nat) -> bool
    decreases m, 0nat, m->Property_0.inputs.len() - i,
{
    if !(m is Property) || i >= m->Property_0.inputs.len() {
        true
    } else {
        input_wf(m->Property_0.inputs[i as int]) && items_wf(m, i + 1)
    }
}

/// Whether every address in the property is twenty bytes long and every
/// range in it is non-empty.
pub open spec fn property_wf(p: PropertyModel) -> bool {
    input_wf(InputModel::Property(p))
}

/// The model of a nested property input is the model of the property itself.
pub proof fn lemma_nested_view(q: Property)
    ensures
        PropertyInput::ConstantProperty(q)@ == InputModel::Property(q@),
{
    let m = PropertyInput::ConstantProperty(q)@->Property_0;
    assert(m.inputs =~= q@.inputs);
}

/// Mathematical value of a property input.
pub enum InputModel {
    Address(Seq<u8>),
    Integer(u64),
    Bytes(Seq<u8>),
    Range(Range),
    Property(PropertyModel),
}

/// Mathematical value of a property.
pub struct PropertyModel {
    pub decider_id: Seq<u8>,
    pub inputs: Seq<InputModel>,
}

impl PropertyInput {
    pub open spec fn view(&self) -> InputModel
        decreases self,
    {
        match self {
            PropertyInput::ConstantAddress(a) => InputModel::Address(a.bytes@),
            PropertyInput::ConstantInteger(n) => InputModel::Integer(*n),
            PropertyInput::ConstantBytes(b) => InputModel::Bytes(b@),
            PropertyInput::ConstantRange(r) => InputModel::Range(*r),
            PropertyInput::ConstantProperty(p) => InputModel::Property(
                PropertyModel {
                    decider_id: p.decider_id.bytes@,
                    inputs: Seq::new(
                        p.inputs@.len(),
                        |i: int|
                            if 0 <= i < p.inputs@.len() {
                                p.inputs@[i].view()
                            } else {
                                InputModel::Integer(0)
                            },
                    ),
                },
            ),
        }
    }

    /// A deep copy with the same model.
    pub fn copy(&self) -> (r: PropertyInput)
        ensures
            r@ == self@,
        decreases self,
    {
        match self {
            PropertyInput::ConstantAddress(a) => {
                let c = a.copy();
                PropertyInput::ConstantAddress(c)
            },
            PropertyInput::ConstantInteger(n) => PropertyInput::ConstantInteger(*n),
            PropertyInput::ConstantBytes(b) => PropertyInput::ConstantBytes(copy_bytes(b)),
            PropertyInput::ConstantRange(r) => PropertyInput::ConstantRange(*r),
            PropertyInput::ConstantProperty(p) => {
                let q = p.copy();
                let ghost qv = q@;
                let r = PropertyInput::ConstantProperty(q);
                proof {
                    assert((r.view()->Property_0).inputs =~= qv.inputs);
                    assert((self.view()->Property_0).inputs =~= p@.inputs);
                }
                r
            },
        }
    }
}

} // verus!
