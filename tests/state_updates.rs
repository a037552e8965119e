use plasma_ovm::codec::Token;
use plasma_ovm::query::{query_balance, query_exchanged, query_orders};
use plasma_ovm::state_update::{StateUpdate, Transaction};
use plasma_ovm::types::{Address, ErrorKind, Property, PropertyInput, Range};

fn addr(b: u8) -> Address {
    Address { bytes: vec![b; 20] }
}

fn ownership(contract: u8, owner: u8) -> Property {
    let signed_by = Property { decider_id: addr(4), inputs: vec![PropertyInput::ConstantAddress(addr(owner))] };
    Property {
        decider_id: addr(10),
        inputs: vec![
            PropertyInput::ConstantAddress(addr(contract)),
            PropertyInput::ConstantInteger(0),
            PropertyInput::ConstantProperty(signed_by),
        ],
    }
}

fn range(start: u64, end: u64) -> Range {
    Range::new(start, end).unwrap()
}

#[test]
fn range_new_rejects_empty() {
    assert_eq!(Range::new(5, 7), Ok(Range { start: 5, end: 7 }));
    assert_eq!(Range::new(7, 7), Err(ErrorKind::PlasmaCoreError));
    assert_eq!(Range::new(8, 7), Err(ErrorKind::PlasmaCoreError));
}

#[test]
fn transition_moves_to_next_block() {
    let su = StateUpdate::new(range(5, 7), ownership(1, 2), 7);
    let next = su.execute_state_transition(&Transaction::new(range(5, 6))).unwrap();
    assert_eq!(next.get_block_number(), 8);
    assert_eq!(next.get_range(), Range { start: 5, end: 6 });
    assert_eq!(next.get_property().inputs.len(), 3);
}

#[test]
fn transition_outside_range_is_invalid() {
    let su = StateUpdate::new(range(5, 7), ownership(1, 2), 7);
    let err = su.execute_state_transition(&Transaction::new(range(4, 6))).err().unwrap();
    assert_eq!(err.kind(), ErrorKind::InvalidTransaction);
    let err = su.execute_state_transition(&Transaction::new(range(6, 8))).err().unwrap();
    assert_eq!(err.kind(), ErrorKind::InvalidTransaction);
}

#[test]
fn transition_to_empty_range_is_invalid() {
    let su = StateUpdate::new(range(5, 7), ownership(1, 2), 7);
    let err = su.execute_state_transition(&Transaction::new(Range { start: 6, end: 6 })).err().unwrap();
    assert_eq!(err.kind(), ErrorKind::InvalidTransaction);
    let err = su.execute_state_transition(&Transaction::new(Range { start: 6, end: 5 })).err().unwrap();
    assert_eq!(err.kind(), ErrorKind::InvalidTransaction);
}

#[test]
fn decode_refuses_reversed_range_and_short_address() {
    assert_eq!(Range::from_tuple(&[Token::Uint(4), Token::Uint(4)]), Err(ErrorKind::AbiDecode));
    assert_eq!(Range::from_tuple(&[Token::Uint(5), Token::Uint(4)]), Err(ErrorKind::AbiDecode));
    let su = StateUpdate::new(range(5, 7), ownership(1, 2), 7);
    let mut tokens = su.to_tuple();
    tokens[1] = Token::Tuple(vec![Token::Uint(7), Token::Uint(5)]);
    assert_eq!(StateUpdate::from_tuple(&tokens).err().unwrap().kind(), ErrorKind::AbiDecode);
    let short_signer = vec![
        Token::Uint(7),
        Token::Tuple(vec![Token::Uint(5), Token::Uint(7)]),
        Token::Tuple(vec![
            Token::Address(addr(10)),
            Token::Array(vec![Token::Tuple(vec![Token::Uint(0), Token::Address(Address { bytes: vec![1; 19] })])]),
        ]),
    ];
    assert_eq!(StateUpdate::from_tuple(&short_signer).err().unwrap().kind(), ErrorKind::AbiDecode);
    let short_id = vec![Token::Address(Address { bytes: vec![1; 21] }), Token::Array(vec![])];
    assert_eq!(Property::from_tuple(&short_id).err(), Some(ErrorKind::AbiDecode));
}

#[test]
fn set_range_keeps_the_rest() {
    let mut su = StateUpdate::new(range(5, 7), ownership(1, 2), 7);
    su.set_range(range(5, 6));
    assert_eq!(su.get_range(), Range { start: 5, end: 6 });
    assert_eq!(su.get_block_number(), 7);
}

fn same_property(a: &Property, b: &Property) -> bool {
    a.decider_id.bytes == b.decider_id.bytes
        && a.inputs.len() == b.inputs.len()
        && a.inputs.iter().zip(b.inputs.iter()).all(|(x, y)| match (x, y) {
            (PropertyInput::ConstantAddress(p), PropertyInput::ConstantAddress(q)) => p.bytes == q.bytes,
            (PropertyInput::ConstantInteger(p), PropertyInput::ConstantInteger(q)) => p == q,
            (PropertyInput::ConstantBytes(p), PropertyInput::ConstantBytes(q)) => p == q,
            (PropertyInput::ConstantRange(p), PropertyInput::ConstantRange(q)) => p == q,
            (PropertyInput::ConstantProperty(p), PropertyInput::ConstantProperty(q)) => same_property(p, q),
            _ => false,
        })
}

#[test]
fn state_update_round_trip() {
    let mut property = ownership(1, 2);
    property.inputs.push(PropertyInput::ConstantBytes(vec![1, 2, 3]));
    property.inputs.push(PropertyInput::ConstantRange(range(3, 9)));
    let su = StateUpdate::new(range(5, 7), property, 7);
    let tokens = su.to_tuple();
    assert_eq!(tokens.len(), 3);
    assert!(matches!(tokens[0], Token::Uint(7)));
    let back = StateUpdate::from_tuple(&tokens).ok().unwrap();
    assert_eq!(back.get_block_number(), 7);
    assert_eq!(back.get_range(), Range { start: 5, end: 7 });
    assert!(same_property(back.get_property(), su.get_property()));
}

#[test]
fn decode_refuses_wrong_shapes() {
    let su = StateUpdate::new(range(5, 7), ownership(1, 2), 7);
    let mut tokens = su.to_tuple();
    tokens.pop();
    assert_eq!(StateUpdate::from_tuple(&tokens).err().unwrap().kind(), ErrorKind::AbiDecode);
    let bad_tag = vec![
        Token::Uint(7),
        Token::Tuple(vec![Token::Uint(5), Token::Uint(7)]),
        Token::Tuple(vec![
            Token::Address(addr(10)),
            Token::Array(vec![Token::Tuple(vec![Token::Uint(9), Token::Uint(1)])]),
        ]),
    ];
    assert_eq!(StateUpdate::from_tuple(&bad_tag).err().unwrap().kind(), ErrorKind::AbiDecode);
    let bad_range = vec![Token::Uint(1), Token::Bytes(vec![])];
    assert_eq!(Range::from_tuple(&bad_range), Err(ErrorKind::AbiDecode));
    assert_eq!(Range::from_tuple(&[Token::Uint(1), Token::Uint(4)]), Ok(Range { start: 1, end: 4 }));
}

#[test]
fn balance_sums_owned_ranges_per_contract() {
    let updates = vec![
        StateUpdate::new(range(0, 10), ownership(1, 2), 1),
        StateUpdate::new(range(20, 25), ownership(1, 2), 1),
        StateUpdate::new(range(30, 33), ownership(3, 2), 1),
        StateUpdate::new(range(40, 100), ownership(1, 5), 1),
    ];
    let balances = query_balance(updates, addr(2));
    assert_eq!(balances.len(), 2);
    assert_eq!(balances[0].0.bytes, addr(1).bytes);
    assert_eq!(balances[0].1, 15);
    assert_eq!(balances[1].0.bytes, addr(3).bytes);
    assert_eq!(balances[1].1, 3);
    assert_eq!(query_balance(vec![], addr(2)).len(), 0);
}

#[test]
fn balance_ignores_other_owners_large_ranges() {
    let updates = vec![
        StateUpdate::new(range(0, u64::MAX), ownership(1, 5), 1),
        StateUpdate::new(range(0, u64::MAX), ownership(1, 6), 1),
        StateUpdate::new(range(3, 4), ownership(1, 2), 1),
    ];
    let balances = query_balance(updates, addr(2));
    assert_eq!(balances.len(), 1);
    assert_eq!(balances[0].1, 1);
}

fn exchanged(contract: u8, owner: u8) -> Property {
    let signed_by = Property { decider_id: addr(4), inputs: vec![PropertyInput::ConstantAddress(addr(owner))] };
    let and = Property {
        decider_id: addr(1),
        inputs: vec![PropertyInput::ConstantInteger(0), PropertyInput::ConstantProperty(signed_by)],
    };
    let or = Property { decider_id: addr(14), inputs: vec![PropertyInput::ConstantProperty(and)] };
    let wrap = |inner: Property| Property {
        decider_id: addr(15),
        inputs: vec![
            PropertyInput::ConstantInteger(0),
            PropertyInput::ConstantInteger(0),
            PropertyInput::ConstantProperty(inner),
        ],
    };
    let q_property = wrap(wrap(or));
    Property {
        decider_id: addr(16),
        inputs: vec![
            PropertyInput::ConstantAddress(addr(contract)),
            PropertyInput::ConstantInteger(0),
            PropertyInput::ConstantProperty(q_property),
        ],
    }
}

#[test]
fn balance_counts_exchanged_states() {
    let updates = vec![
        StateUpdate::new(range(0, 10), ownership(1, 2), 1),
        StateUpdate::new(range(10, 14), exchanged(1, 2), 1),
        StateUpdate::new(range(20, 30), exchanged(1, 3), 1),
    ];
    let balances = query_balance(updates, addr(2));
    assert_eq!(balances.len(), 1);
    assert_eq!(balances[0].1, 14);
}

fn order_object(token: u8, amount: u64, maker: u8) -> Property {
    let verify_tx = Property {
        decider_id: addr(11),
        inputs: vec![
            PropertyInput::ConstantInteger(0),
            PropertyInput::ConstantAddress(addr(token)),
            PropertyInput::ConstantInteger(amount),
            PropertyInput::ConstantAddress(addr(maker)),
        ],
    };
    let or = Property { decider_id: addr(12), inputs: vec![PropertyInput::ConstantProperty(verify_tx)] };
    Property {
        decider_id: addr(13),
        inputs: vec![
            PropertyInput::ConstantInteger(0),
            PropertyInput::ConstantInteger(0),
            PropertyInput::ConstantProperty(or),
        ],
    }
}

#[test]
fn test_query_orders() {
    assert_eq!(Address::zero().bytes, vec![0u8; 20]);
    let property = order_object(0, 100, 0);
    let state_update_list = vec![StateUpdate::new(range(5, 7), property, 7)];
    let result = query_orders(state_update_list);
    assert_eq!(result.len(), 1);
    assert_eq!(result[0].2, 100);
}

#[test]
fn orders_skip_other_states() {
    let list = vec![
        StateUpdate::new(range(0, 1), ownership(1, 2), 1),
        StateUpdate::new(range(1, 2), order_object(3, 50, 4), 1),
    ];
    let result = query_orders(list);
    assert_eq!(result.len(), 1);
    assert_eq!(result[0].0.get_range(), Range { start: 1, end: 2 });
    assert_eq!(result[0].1.bytes, addr(3).bytes);
    assert_eq!(result[0].3.bytes, addr(4).bytes);
}

#[test]
fn exchanged_reads_token_and_range() {
    let q_su = Property {
        decider_id: addr(20),
        inputs: vec![
            PropertyInput::ConstantInteger(0),
            PropertyInput::ConstantAddress(addr(7)),
            PropertyInput::ConstantRange(range(2, 4)),
        ],
    };
    let there = Property { decider_id: addr(21), inputs: vec![PropertyInput::ConstantProperty(q_su)] };
    let q_property = Property {
        decider_id: addr(22),
        inputs: vec![
            PropertyInput::ConstantInteger(0),
            PropertyInput::ConstantInteger(0),
            PropertyInput::ConstantProperty(there),
        ],
    };
    let state_object = Property {
        decider_id: addr(23),
        inputs: vec![
            PropertyInput::ConstantInteger(0),
            PropertyInput::ConstantInteger(0),
            PropertyInput::ConstantProperty(q_property),
        ],
    };
    let (token, r) = query_exchanged(state_object).unwrap();
    assert_eq!(token.bytes, addr(7).bytes);
    assert_eq!(r, Range { start: 2, end: 4 });
    assert!(query_exchanged(ownership(1, 2)).is_none());
}
