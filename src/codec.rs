//! The tuple codec: properties, ranges and state updates as typed wire values.
use vstd::prelude::*;
use crate::state_update::{Error, StateUpdate, StateUpdateModel};
use crate::types::{input_wf, items_wf, property_wf, lemma_nested_view, Address, ErrorKind, InputModel, Property, PropertyInput, PropertyModel, Range};

verus! {

broadcast use vstd::std_specs::vec::group_vec_axioms, vstd::seq::group_seq_axioms;

/// Mathematical value of a wire value.
pub enum TokenModel {
    Uint(u64),
    Address(Seq<u8>),
    Bytes(Seq<u8>),
    Tuple(Seq<TokenModel>),
    Array(Seq<TokenModel>),
}

/// A typed wire value.
#[derive(Debug)]
pub enum Token {
    Uint(u64),
    Address(Address),
    Bytes(Vec<u8>),
    Tuple(Vec<Token>),
    Array(Vec<Token>),
}

/// Mathematical value of a wire type.
pub enum ParamModel {
    Uint(u64),
    Address,
    Bytes,
    Tuple(Seq<ParamModel>),
    Array(Box<ParamModel>),
    TaggedInput,
}

/// The type of a wire value.
#[derive(Debug)]
pub enum ParamType {
    /// An unsigned integer of the given bit width.
    Uint(u64),
    Address,
    Bytes,
    Tuple(Vec<ParamType>),
    Array(Box<ParamType>),
    /// A property input: a tag, then the value of the kind that the tag names.
    TaggedInput,
}

impl ParamType {
    pub open spec fn view(&self) -> ParamModel
        decreases self,
    {
        match self {
            ParamType::Uint(n) => ParamModel::Uint(*n),
            ParamType::Address => ParamModel::Address,
            ParamType::Bytes => ParamModel::Bytes,
            ParamType::Tuple(ps) => ParamModel::Tuple(
                Seq::new(
                    ps@.len(),
                    |i: int|
                        if 0 <= i < ps@.len() {
                            ps@[i].view()
                        } else {
                            ParamModel::Bytes
                        },
                ),
            ),
            ParamType::Array(p) => ParamModel::Array(Box::new((**p).view())),
            ParamType::TaggedInput => ParamModel::TaggedInput,
        }
    }
}

pub open spec fn params_view(ps: Seq<ParamType>) -> Seq<ParamModel> {
    Seq::new(ps.len(), |i: int| ps[i]@)
}

/// Schema of a range.
pub open spec fn range_params() -> Seq<ParamModel> {
    seq![ParamModel::Uint(64), ParamModel::Uint(64)]
}

/// Schema of a property.
pub open spec fn property_params() -> Seq<ParamModel> {
    seq![ParamModel::Address, ParamModel::Array(Box::new(ParamModel::TaggedInput))]
}

/// Schema of a state update.
pub open spec fn state_update_params() -> Seq<ParamModel> {
    seq![ParamModel::Uint(64), ParamModel::Tuple(range_params()), ParamModel::Tuple(property_params())]
}

/// Tag of each kind of property input on the wire.
pub const TAG_ADDRESS: u64 = 0;
pub const TAG_INTEGER: u64 = 1;
pub const TAG_BYTES: u64 = 2;
pub const TAG_RANGE: u64 = 3;
pub const TAG_PROPERTY: u64 = 4;

impl Token {
    pub open spec fn view(&self) -> TokenModel
        decreases self,
    {
        match self {
            Token::Uint(n) => TokenModel::Uint(*n),
            Token::Address(a) => TokenModel::Address(a.bytes@),
            Token::Bytes(b) => TokenModel::Bytes(b@),
            Token::Tuple(ts) => TokenModel::Tuple(
                Seq::new(
                    ts@.len(),
                    |i: int|
                        if 0 <= i < ts@.len() {
                            ts@[i].view()
                        } else {
                            TokenModel::Uint(0)
                        },
                ),
            ),
            Token::Array(ts) => TokenModel::Array(
                Seq::new(
                    ts@.len(),
                    |i: int|
                        if 0 <= i < ts@.len() {
                            ts@[i].view()
                        } else {
                            TokenModel::Uint(0)
                        },
                ),
            ),
        }
    }
}

/// Models of a sequence of tokens.
pub open spec fn tokens_view(ts: Seq<Token>) -> Seq<TokenModel> {
    Seq::new(ts.len(), |i: int| ts[i]@)
}

/// A range on the wire: `(start, end)`.
pub open spec fn range_tokens(r: Range) -> Seq<TokenModel> {
    seq![TokenModel::Uint(r.start), TokenModel::Uint(r.end)]
}

/// A property input on the wire: `(tag, value)`; a nested property's value is
/// the tuple `(decider id, [inputs])`.
pub open spec fn input_token(m: InputModel) -> TokenModel
    decreases m,
{
    match m {
        InputModel::Address(a) => TokenModel::Tuple(seq![TokenModel::Uint(TAG_ADDRESS), TokenModel::Address(a)]),
        InputModel::Integer(n) => TokenModel::Tuple(seq![TokenModel::Uint(TAG_INTEGER), TokenModel::Uint(n)]),
        InputModel::Bytes(b) => TokenModel::Tuple(seq![TokenModel::Uint(TAG_BYTES), TokenModel::Bytes(b)]),
        InputModel::Range(r) => TokenModel::Tuple(seq![TokenModel::Uint(TAG_RANGE), TokenModel::Tuple(range_tokens(r))]),
        InputModel::Property(p) => TokenModel::Tuple(
            seq![
                TokenModel::Uint(TAG_PROPERTY),
                TokenModel::Tuple(
                    seq![
                        TokenModel::Address(p.decider_id),
                        TokenModel::Array(
                            Seq::new(
                                p.inputs.len(),
                                |i: int|
                                    if 0 <= i < p.inputs.len() {
                                        input_token(p.inputs[i])
                                    } else {
                                        TokenModel::Uint(0)
                                    },
                            ),
                        ),
                    ],
                ),
            ],
        ),
    }
}

/// A property on the wire: `(decider id, [inputs])`.
pub open spec fn property_tokens(p: PropertyModel) -> Seq<TokenModel> {
    input_token(InputModel::Property(p))->Tuple_0[1]->Tuple_0
}

/// A state update on the wire: `(block number, range, property)`.
pub open spec fn state_update_tokens(s: StateUpdateModel) -> Seq<TokenModel> {
    seq![
        TokenModel::Uint(s.block_number),
        TokenModel::Tuple(range_tokens(s.range)),
        TokenModel::Tuple(property_tokens(s.property)),
    ]
}

pub open spec fn decode_range(ts: Seq<TokenModel>) -> Option<Range> {
    if ts.len() == 2 && ts[0] is Uint && ts[1] is Uint && ts[0]->Uint_0 < ts[1]->Uint_0 {
        Some(Range { start: ts[0]->Uint_0, end: ts[1]->Uint_0 })
    } else {
        None
    }
}

/// Whether `t` has the shape of a tagged nested property.
pub open spec fn nested_shape(t: TokenModel) -> bool {
    &&& t is Tuple
    &&& t->Tuple_0.len() == 2
    &&& t->Tuple_0[0] == TokenModel::Uint(TAG_PROPERTY)
    &&& t->Tuple_0[1] is Tuple
    &&& t->Tuple_0[1]->Tuple_0.len() == 2
    &&& t->Tuple_0[1]->Tuple_0[0] is Address
    &&& t->Tuple_0[1]->Tuple_0[0]->Address_0.len() == 20
    &&& t->Tuple_0[1]->Tuple_0[1] is Array
}

pub open spec fn nested_id(t: TokenModel) -> Seq<u8> {
    t->Tuple_0[1]->Tuple_0[0]->Address_0
}

pub open spec fn nested_items(t: TokenModel) -> Seq<TokenModel> {
    t->Tuple_0[1]->Tuple_0[1]->Array_0
}

/// The property input that the tagged token `t` holds, if it holds one.
pub open spec fn decode_input(t: TokenModel) -> Option<InputModel>
    decreases t, 1nat, 0nat,
{
    if nested_shape(t) {
        match decode_items(t, 0) {
            Some(items) => Some(InputModel::Property(PropertyModel { decider_id: nested_id(t), inputs: items })),
            None => None,
        }
    } else if t is Tuple && t->Tuple_0.len() == 2 && t->Tuple_0[0] is Uint {
        let tag = t->Tuple_0[0]->Uint_0;
        let v = t->Tuple_0[1];
        if tag == TAG_ADDRESS && v is Address && v->Address_0.len() == 20 {
            Some(InputModel::Address(v->Address_0))
        } else if tag == TAG_INTEGER && v is Uint {
            Some(InputModel::Integer(v->Uint_0))
        } else if tag == TAG_BYTES && v is Bytes {
            Some(InputModel::Bytes(v->Bytes_0))
        } else if tag == TAG_RANGE && v is Tuple && decode_range(v->Tuple_0) is Some {
            Some(InputModel::Range(decode_range(v->Tuple_0)->0))
        } else {
            None
        }
    } else {
        None
    }
}

/// The inputs decoded from items `i..` of a nested property token.
pub open spec fn decode_items(t: TokenModel, i: nat) -> Option<Seq<InputModel>>
    decreases t, 0nat, nested_items(t).len() - i,
{
    if !nested_shape(t) || i >= nested_items(t).len() {
        Some(Seq::empty())
    } else {
        match decode_input(nested_items(t)[i as int]) {
            None => None,
            Some(m) => match decode_items(t, i + 1) {
                Some(rest) => Some(seq![m] + rest),
                None => None,
            },
        }
    }
}

/// The property that `(decider id, [inputs])` holds, if it holds one.
pub open spec fn decode_property(ts: Seq<TokenModel>) -> Option<PropertyModel> {
    match decode_input(TokenModel::Tuple(seq![TokenModel::Uint(TAG_PROPERTY), TokenModel::Tuple(ts)])) {
        Some(InputModel::Property(p)) => Some(p),
        _ => None,
    }
}

pub open spec fn decode_state_update(ts: Seq<TokenModel>) -> Option<StateUpdateModel> {
    if ts.len() == 3 && ts[0] is Uint && ts[1] is Tuple && ts[2] is Tuple && decode_range(ts[1]->Tuple_0) is Some
        && decode_property(ts[2]->Tuple_0) is Some {
        Some(
            StateUpdateModel {
                block_number: ts[0]->Uint_0,
                range: decode_range(ts[1]->Tuple_0)->0,
                property: decode_property(ts[2]->Tuple_0)->0,
            },
        )
    } else {
        None
    }
}

proof fn lemma_input_round_trip(m: InputModel)
    requires
        input_wf(m),
    ensures
        decode_input(input_token(m)) == Some(m),
    decreases m, 1nat, 0nat,
{
    if let InputModel::Property(p) = m {
        let t = input_token(m);
        assert(nested_shape(t));
        assert(nested_items(t).len() == p.inputs.len());
        lemma_items_round_trip(m, 0);
        assert(p.inputs.subrange(0, p.inputs.len() as int) =~= p.inputs);
    } else if let InputModel::Range(r) = m {
        assert(decode_range(range_tokens(r)) == Some(r));
    }
}

proof fn lemma_items_round_trip(m: InputModel, i: nat)
    requires
        m is Property,
        i <= m->Property_0.inputs.len(),
        m->Property_0.decider_id.len() == 20,
        items_wf(m, i),
    ensures
        decode_items(input_token(m), i) == Some(m->Property_0.inputs.subrange(i as int, m->Property_0.inputs.len() as int)),
    decreases m, 0nat, m->Property_0.inputs.len() - i,
{
    let p = m->Property_0;
    let t = input_token(m);
    assert(nested_shape(t));
    assert(nested_items(t).len() == p.inputs.len());
    if i < p.inputs.len() {
        assert(nested_items(t)[i as int] == input_token(p.inputs[i as int]));
        lemma_input_round_trip(p.inputs[i as int]);
        lemma_items_round_trip(m, i + 1);
        assert(seq![p.inputs[i as int]] + p.inputs.subrange(i + 1 as int, p.inputs.len() as int) =~= p.inputs.subrange(
            i as int,
            p.inputs.len() as int,
        ));
    } else {
        assert(p.inputs.subrange(i as int, p.inputs.len() as int) =~= Seq::<InputModel>::empty());
    }
}

proof fn lemma_items_wf_from_all(m: InputModel, i: nat)
    requires
        m is Property,
        forall|j: int| i <= j < m->Property_0.inputs.len() ==> input_wf(#[trigger] m->Property_0.inputs[j]),
    ensures
        items_wf(m, i),
    decreases m->Property_0.inputs.len() - i,
{
    if i < m->Property_0.inputs.len() {
        lemma_items_wf_from_all(m, i + 1);
    }
}

proof fn lemma_decoded_input_wf(t: TokenModel)
    ensures
        decode_input(t) matches Some(m) ==> input_wf(m),
    decreases t, 1nat, 0nat,
{
    if nested_shape(t) {
        lemma_decoded_items_wf(t, 0);
        if let Some(items) = decode_items(t, 0) {
            let m = InputModel::Property(PropertyModel { decider_id: nested_id(t), inputs: items });
            lemma_items_wf_from_all(m, 0);
        }
    }
}

proof fn lemma_decoded_items_wf(t: TokenModel, i: nat)
    ensures
        decode_items(t, i) matches Some(ms) ==> forall|j: int| 0 <= j < ms.len() ==> input_wf(#[trigger] ms[j]),
    decreases t, 0nat, nested_items(t).len() - i,
{
    if nested_shape(t) && i < nested_items(t).len() {
        lemma_decoded_input_wf(nested_items(t)[i as int]);
        lemma_decoded_items_wf(t, i + 1);
        if let Some(ms) = decode_items(t, i) {
            let m = decode_input(nested_items(t)[i as int])->0;
            let rest = decode_items(t, i + 1)->0;
            assert(ms == seq![m] + rest);
            assert forall|j: int| 0 <= j < ms.len() implies input_wf(#[trigger] ms[j]) by {
                if j > 0 {
                    assert(ms[j] == rest[j - 1]);
                }
            }
        }
    }
}

/// What decoding yields is well formed: addresses of twenty bytes and
/// non-empty ranges.
pub proof fn law_decoded_state_update_wf(ts: Seq<TokenModel>)
    ensures
        decode_state_update(ts) matches Some(s) ==> s.range.wf() && property_wf(s.property),
{
    if ts.len() == 3 && ts[2] is Tuple {
        lemma_decoded_input_wf(TokenModel::Tuple(seq![TokenModel::Uint(TAG_PROPERTY), TokenModel::Tuple(ts[2]->Tuple_0)]));
    }
}

/// Decoding the encoding of a property gives the property back, inputs in
/// their order.
pub proof fn law_property_round_trip(p: PropertyModel)
    requires
        property_wf(p),
    ensures
        decode_property(property_tokens(p)) == Some(p),
{
    let t = input_token(InputModel::Property(p));
    lemma_input_round_trip(InputModel::Property(p));
    assert(TokenModel::Tuple(seq![TokenModel::Uint(TAG_PROPERTY), TokenModel::Tuple(property_tokens(p))]) =~= t);
}

/// Decoding the encoding of a state update gives the state update back.
pub proof fn law_state_update_round_trip(s: StateUpdateModel)
    requires
        s.range.wf(),
        property_wf(s.property),
    ensures
        decode_state_update(state_update_tokens(s)) == Some(s),
{
    law_property_round_trip(s.property);
    assert(decode_range(range_tokens(s.range)) == Some(s.range));
}

/// Models of a sequence of property inputs.
pub open spec fn inputs_view(xs: Seq<PropertyInput>) -> Seq<InputModel> {
    Seq::new(xs.len(), |i: int| xs[i]@)
}

pub open spec fn prepend(a: Seq<InputModel>, o: Option<Seq<InputModel>>) -> Option<Seq<InputModel>> {
    match o {
        Some(rest) => Some(a + rest),
        None => None,
    }
}

impl Range {
    pub fn get_param_types() -> (r: Vec<ParamType>)
        ensures
            params_view(r@) == range_params(),
    {
        let mut r: Vec<ParamType> = Vec::new();
        r.push(ParamType::Uint(64));
        r.push(ParamType::Uint(64));
        assert(params_view(r@) =~= range_params());
        r
    }

    /// `(start, end)`.
    pub fn to_tuple(&self) -> (r: Vec<Token>)
        ensures
            tokens_view(r@) == range_tokens(*self),
    {
        let mut r: Vec<Token> = Vec::new();
        r.push(Token::Uint(self.start));
        r.push(Token::Uint(self.end));
        assert(tokens_view(r@) =~= range_tokens(*self));
        r
    }

    /// Reads `(start, end)`.
    pub fn from_tuple(tuple: &[Token]) -> (r: Result<Range, ErrorKind>)
        ensures
            r is Ok <==> decode_range(tokens_view(tuple@)) is Some,
            r matches Ok(x) ==> decode_range(tokens_view(tuple@)) == Some(x),
            r matches Err(e) ==> e == ErrorKind::AbiDecode,
    {
        let ghost tv = tokens_view(tuple@);
        if tuple.len() != 2 {
            return Err(ErrorKind::AbiDecode);
        }
        assert(tv[0] == tuple@[0]@ && tv[1] == tuple@[1]@);
        match (&tuple[0], &tuple[1]) {
            (Token::Uint(start), Token::Uint(end)) => if *start < *end {
                Ok(Range { start: *start, end: *end })
            } else {
                Err(ErrorKind::AbiDecode)
            },
            _ => Err(ErrorKind::AbiDecode),
        }
    }
}

/// Decodes the items of a nested property token, `tm`, whose item list is `items`.
fn items_from_tokens(items: &Vec<Token>, Ghost(tm): Ghost<TokenModel>) -> (r: Option<Vec<PropertyInput>>)
    requires
        nested_shape(tm),
        nested_items(tm) == tokens_view(items@),
    ensures
        r matches Some(v) ==> decode_items(tm, 0) == Some(inputs_view(v@)),
        r is None ==> decode_items(tm, 0) is None,
    decreases items,
{
    let mut acc: Vec<PropertyInput> = Vec::new();
    let mut i: usize = 0;
    assert(inputs_view(acc@) + decode_items(tm, 0)->0 =~= decode_items(tm, 0)->0);
    while i < items.len()
        invariant
            nested_shape(tm),
            nested_items(tm) == tokens_view(items@),
            i <= items@.len(),
            decode_items(tm, 0) == prepend(inputs_view(acc@), decode_items(tm, i as nat)),
        decreases items@.len() - i,
    {
        assert(nested_items(tm)[i as int] == items@[i as int]@);
        match token_to_input(&items[i]) {
            None => return None,
            Some(x) => {
                let ghost before = acc@;
                acc.push(x);
                proof {
                    let rest = decode_items(tm, (i + 1) as nat);
                    if rest is Some {
                        assert(inputs_view(acc@) + rest->0 =~= inputs_view(before) + (seq![x@] + rest->0));
                    }
                }
            },
        }
        i = i + 1;
    }
    assert(inputs_view(acc@) + Seq::<InputModel>::empty() =~= inputs_view(acc@));
    Some(acc)
}

/// Reads one tagged property input.
pub fn token_to_input(t: &Token) -> (r: Option<PropertyInput>)
    ensures
        r matches Some(x) ==> decode_input(t@) == Some(x@),
        r is None ==> decode_input(t@) is None,
    decreases t,
{
    let ts = match t {
        Token::Tuple(ts) => ts,
        _ => return None,
    };
    if ts.len() != 2 {
        return None;
    }
    let ghost tm = t@;
    assert(tm->Tuple_0[0] == ts@[0]@ && tm->Tuple_0[1] == ts@[1]@);
    let tag = match &ts[0] {
        Token::Uint(n) => *n,
        _ => return None,
    };
    match &ts[1] {
        Token::Address(a) => if tag == TAG_ADDRESS && a.bytes.len() == 20 {
            Some(PropertyInput::ConstantAddress(a.copy()))
        } else {
            None
        },
        Token::Uint(n) => if tag == TAG_INTEGER {
            Some(PropertyInput::ConstantInteger(*n))
        } else {
            None
        },
        Token::Bytes(b) => if tag == TAG_BYTES {
            Some(PropertyInput::ConstantBytes(crate::types::copy_bytes(b)))
        } else {
            None
        },
        Token::Tuple(vs) => if tag == TAG_RANGE {
            match Range::from_tuple(vs.as_slice()) {
                Ok(r) => Some(PropertyInput::ConstantRange(r)),
                Err(_) => None,
            }
        } else if tag == TAG_PROPERTY {
            if vs.len() != 2 {
                return None;
            }
            let ghost inner = tm->Tuple_0[1]->Tuple_0;
            assert(inner[0] == vs@[0]@ && inner[1] == vs@[1]@);
            match (&vs[0], &vs[1]) {
                (Token::Address(id), Token::Array(items)) => {
                    if id.bytes.len() != 20 {
                        return None;
                    }
                    assert(nested_items(tm) =~= tokens_view(items@));
                    match items_from_tokens(items, Ghost(tm)) {
                        None => None,
                        Some(inputs) => {
                            let q = Property { decider_id: id.copy(), inputs };
                            proof {
                                lemma_nested_view(q);
                                assert(q@.inputs =~= inputs_view(q.inputs@));
                            }
                            Some(PropertyInput::ConstantProperty(q))
                        },
                    }
                },
                _ => None,
            }
        } else {
            None
        },
        Token::Array(_) => None,
    }
}

/// The encoded items of a list of property inputs.
fn items_to_tokens(xs: &Vec<PropertyInput>) -> (r: Vec<Token>)
    ensures
        r@.len() == xs@.len(),
        forall|i: int| 0 <= i < xs@.len() ==> #[trigger] r@[i]@ == input_token(xs@[i]@),
    decreases xs,
{
    let mut r: Vec<Token> = Vec::new();
    let mut i: usize = 0;
    while i < xs.len()
        invariant
            i <= xs@.len(),
            r@.len() == i,
            forall|j: int| 0 <= j < i ==> #[trigger] r@[j]@ == input_token(xs@[j]@),
        decreases xs@.len() - i,
    {
        r.push(input_to_token(&xs[i]));
        i = i + 1;
    }
    r
}

/// Writes one property input as `(tag, value)`.
pub fn input_to_token(x: &PropertyInput) -> (r: Token)
    ensures
        r@ == input_token(x@),
    decreases x,
{
    let (tag, value) = match x {
        PropertyInput::ConstantAddress(a) => (TAG_ADDRESS, Token::Address(a.copy())),
        PropertyInput::ConstantInteger(n) => (TAG_INTEGER, Token::Uint(*n)),
        PropertyInput::ConstantBytes(b) => (TAG_BYTES, Token::Bytes(crate::types::copy_bytes(b))),
        PropertyInput::ConstantRange(r) => {
            let ts = r.to_tuple();
            assert(Token::Tuple(ts)@->Tuple_0 =~= tokens_view(ts@));
            (TAG_RANGE, Token::Tuple(ts))
        },
        PropertyInput::ConstantProperty(q) => {
            proof {
                lemma_nested_view(*q);
            }
            let inner = property_payload(q);
            assert(Token::Tuple(inner)@->Tuple_0 =~= tokens_view(inner@));
            assert(Token::Tuple(inner)@ == input_token(x@)->Tuple_0[1]);
            (TAG_PROPERTY, Token::Tuple(inner))
        },
    };
    let ghost vm = value@;
    let mut pair: Vec<Token> = Vec::new();
    pair.push(Token::Uint(tag));
    pair.push(value);
    assert(pair@[0]@ == TokenModel::Uint(tag));
    assert(pair@[1]@ == vm);
    let r = Token::Tuple(pair);
    assert(r@->Tuple_0 =~= seq![TokenModel::Uint(tag), vm]);
    assert(r@->Tuple_0 =~= input_token(x@)->Tuple_0);
    r
}

/// `(decider id, [inputs])`, each input tagged.
fn property_payload(q: &Property) -> (r: Vec<Token>)
    ensures
        tokens_view(r@) == property_tokens(q@),
    decreases q,
{
    let items = items_to_tokens(&q.inputs);
    let ghost iv = items@;
    let mut r: Vec<Token> = Vec::new();
    r.push(Token::Address(q.decider_id.copy()));
    r.push(Token::Array(items));
    proof {
        assert(r@[1] == Token::Array(items));
        assert(r@[0]@ == TokenModel::Address(q.decider_id@));
        let m = input_token(InputModel::Property(q@))->Tuple_0[1];
        let a = (r@[1]@)->Array_0;
        assert(r@[1]@ is Array);
        assert(a.len() == iv.len());
        assert forall|i: int| 0 <= i < iv.len() implies a[i] == m->Tuple_0[1]->Array_0[i] by {
            assert(a[i] == iv[i]@);
            assert(q@.inputs[i] == q.inputs@[i]@);
        }
        assert(a =~= m->Tuple_0[1]->Array_0);
        assert(tokens_view(r@) =~= m->Tuple_0);
    }
    r
}

impl Property {
    pub fn get_param_types() -> (r: Vec<ParamType>)
        ensures
            params_view(r@) == property_params(),
    {
        let mut r: Vec<ParamType> = Vec::new();
        r.push(ParamType::Address);
        r.push(ParamType::Array(Box::new(ParamType::TaggedInput)));
        assert(ParamType::TaggedInput@ == ParamModel::TaggedInput);
        assert(r@[1]@ == ParamModel::Array(Box::new(ParamModel::TaggedInput)));
        assert(params_view(r@) =~= property_params());
        r
    }

    /// `(decider id, [inputs])`, each input tagged.
    pub fn to_tuple(&self) -> (r: Vec<Token>)
        ensures
            tokens_view(r@) == property_tokens(self@),
    {
        property_payload(self)
    }

    /// Reads `(decider id, [inputs])`.
    pub fn from_tuple(tuple: &[Token]) -> (r: Result<Property, ErrorKind>)
        ensures
            r is Ok <==> decode_property(tokens_view(tuple@)) is Some,
            r matches Ok(p) ==> decode_property(tokens_view(tuple@)) == Some(p@),
            r matches Err(e) ==> e == ErrorKind::AbiDecode,
    {
        let ghost tv = tokens_view(tuple@);
        let ghost tm = TokenModel::Tuple(seq![TokenModel::Uint(TAG_PROPERTY), TokenModel::Tuple(tv)]);
        if tuple.len() != 2 {
            assert(!nested_shape(tm));
            return Err(ErrorKind::AbiDecode);
        }
        assert(tv[0] == tuple@[0]@ && tv[1] == tuple@[1]@);
        match (&tuple[0], &tuple[1]) {
            (Token::Address(id), Token::Array(items)) => {
                if id.bytes.len() != 20 {
                    assert(!nested_shape(tm));
                    return Err(ErrorKind::AbiDecode);
                }
                assert(nested_items(tm) =~= tokens_view(items@));
                match items_from_tokens(items, Ghost(tm)) {
                    None => Err(ErrorKind::AbiDecode),
                    Some(inputs) => {
                        let q = Property { decider_id: id.copy(), inputs };
                        assert(q@.inputs =~= inputs_view(q.inputs@));
                        Ok(q)
                    },
                }
            },
            _ => {
                assert(!nested_shape(tm));
                Err(ErrorKind::AbiDecode)
            },
        }
    }
}

impl StateUpdate {
    pub fn get_param_types() -> (r: Vec<ParamType>)
        ensures
            params_view(r@) == state_update_params(),
    {
        let range = Range::get_param_types();
        let property = Property::get_param_types();
        let ghost rv = params_view(range@);
        let ghost pv = params_view(property@);
        let mut r: Vec<ParamType> = Vec::new();
        r.push(ParamType::Uint(64));
        r.push(ParamType::Tuple(range));
        r.push(ParamType::Tuple(property));
        proof {
            assert(r@[0]@ == ParamModel::Uint(64));
            assert(r@[1]@->Tuple_0 =~= rv);
            assert(r@[2]@->Tuple_0 =~= pv);
            assert(params_view(r@) =~= state_update_params());
        }
        r
    }

    /// `(block number, range, property)`.
    pub fn to_tuple(&self) -> (r: Vec<Token>)
        ensures
            tokens_view(r@) == state_update_tokens(self@),
    {
        let range = self.get_range().to_tuple();
        let property = self.get_property().to_tuple();
        let ghost rv = tokens_view(range@);
        let ghost pv = tokens_view(property@);
        let mut r: Vec<Token> = Vec::new();
        r.push(Token::Uint(self.get_block_number()));
        r.push(Token::Tuple(range));
        r.push(Token::Tuple(property));
        proof {
            assert(r@[1]@->Tuple_0 =~= rv);
            assert(r@[2]@->Tuple_0 =~= pv);
            assert(r@[0]@ == TokenModel::Uint(self@.block_number));
            assert(tokens_view(r@) =~= state_update_tokens(self@));
        }
        r
    }

    /// Reads `(block number, range, property)`; any other shape is an
    /// `AbiDecode` error.
    pub fn from_tuple(tuple: &[Token]) -> (r: Result<StateUpdate, Error>)
        ensures
            r is Ok <==> decode_state_update(tokens_view(tuple@)) is Some,
            r matches Ok(s) ==> decode_state_update(tokens_view(tuple@)) == Some(s@),
            r matches Err(e) ==> e@ == ErrorKind::AbiDecode,
    {
        let ghost tv = tokens_view(tuple@);
        if tuple.len() != 3 {
            return Err(Error::new(ErrorKind::AbiDecode));
        }
        assert(tv[0] == tuple@[0]@ && tv[1] == tuple@[1]@ && tv[2] == tuple@[2]@);
        match (&tuple[0], &tuple[1], &tuple[2]) {
            (Token::Uint(block_number), Token::Tuple(range), Token::Tuple(property)) => {
                assert(tv[1]->Tuple_0 =~= tokens_view(range@));
                assert(tv[2]->Tuple_0 =~= tokens_view(property@));
                let range = match Range::from_tuple(range.as_slice()) {
                    Ok(r) => r,
                    Err(_) => return Err(Error::new(ErrorKind::AbiDecode)),
                };
                let property = match Property::from_tuple(property.as_slice()) {
                    Ok(p) => p,
                    Err(_) => return Err(Error::new(ErrorKind::AbiDecode)),
                };
                proof {
                    law_decoded_state_update_wf(tv);
                }
                Ok(StateUpdate::new(range, property, *block_number))
            },
            _ => Err(Error::new(ErrorKind::AbiDecode)),
        }
    }
}

} // verus!