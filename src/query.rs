//! Derived views over lists of state updates.
use vstd::prelude::*;
use crate::state_update::{StateUpdate, StateUpdateModel};
use crate::types::{lemma_nested_view, Address, Property, PropertyInput, PropertyModel, Range};

verus! {

broadcast use vstd::std_specs::vec::group_vec_axioms, vstd::seq::group_seq_axioms;

/// The owner that an ownership property names: the first input, an address,
/// of the nested property at its third input.
pub open spec fn ownership_owner(p: PropertyModel) -> Option<Seq<u8>> {
    match nested(p, 2) {
        Some(signed_by) => address_input(signed_by, 0),
        None => None,
    }
}

/// The owner that an exchanged state names: following inputs 2, 2, 2, 0 and
/// 1 down nested properties, the first input of the last one, an address.
pub open spec fn exchanged_owner(p: PropertyModel) -> Option<Seq<u8>> {
    match nested(p, 2) {
        Some(q) => match nested(q, 2) {
            Some(q_su) => match nested(q_su, 2) {
                Some(or) => match nested(or, 0) {
                    Some(and) => match nested(and, 1) {
                        Some(signed_by) => address_input(signed_by, 0),
                        None => None,
                    },
                    None => None,
                },
                None => None,
            },
            None => None,
        },
        None => None,
    }
}

/// The owner of a state: the ownership owner where the property has that
/// shape, else the exchanged owner.
pub open spec fn owner_of(p: PropertyModel) -> Option<Seq<u8>> {
    if ownership_owner(p) is Some {
        ownership_owner(p)
    } else {
        exchanged_owner(p)
    }
}

/// The deposit contract that a property names: its first input, an address.
pub open spec fn deposit_contract_of(p: PropertyModel) -> Option<Seq<u8>> {
    if p.inputs.len() >= 1 && p.inputs[0] is Address {
        Some(p.inputs[0]->Address_0)
    } else {
        None
    }
}

/// Whether `s` is owned by `owner` and held in `contract`.
pub open spec fn counts_for(s: StateUpdateModel, owner: Seq<u8>, contract: Seq<u8>) -> bool {
    owner_of(s.property) == Some(owner) && deposit_contract_of(s.property) == Some(contract)
}

pub open spec fn range_len(r: Range) -> int {
    r.end - r.start
}

/// Sum of the range lengths of the updates in `s` that `owner` holds in `contract`.
pub open spec fn balance_of(s: Seq<StateUpdateModel>, owner: Seq<u8>, contract: Seq<u8>) -> int
    decreases s.len(),
{
    if s.len() == 0 {
        0
    } else {
        balance_of(s.drop_last(), owner, contract) + if counts_for(s.last(), owner, contract) {
            range_len(s.last().range)
        } else {
            0
        }
    }
}

pub open spec fn updates_view(v: Seq<StateUpdate>) -> Seq<StateUpdateModel> {
    Seq::new(v.len(), |i: int| v[i]@)
}

/// Whether `c` is named by an entry of `r`.
pub open spec fn listed(r: Seq<(Address, u64)>, c: Seq<u8>) -> bool {
    exists|k: int| 0 <= k < r.len() && (#[trigger] r[k]).0@ == c
}

/// Whether one of the first `n` updates of `s` counts for `owner` in `c`.
pub open spec fn holds_any(s: Seq<StateUpdateModel>, owner: Seq<u8>, c: Seq<u8>, n: int) -> bool {
    exists|j: int| 0 <= j < n && counts_for(#[trigger] s[j], owner, c)
}

pub open spec fn valid_ranges(s: Seq<StateUpdateModel>) -> bool {
    forall|i: int| 0 <= i < s.len() ==> (#[trigger] s[i]).range.start <= s[i].range.end
}

proof fn lemma_balance_prefix(s: Seq<StateUpdateModel>, i: int, owner: Seq<u8>, c: Seq<u8>)
    requires
        valid_ranges(s),
        0 <= i <= s.len(),
    ensures
        0 <= balance_of(s.take(i), owner, c) <= balance_of(s, owner, c),
    decreases s.len(),
{
    if s.len() > 0 {
        assert(valid_ranges(s.drop_last()));
        assert(s.last() == s[s.len() - 1]);
        if i < s.len() {
            assert(s.take(i) =~= s.drop_last().take(i));
            lemma_balance_prefix(s.drop_last(), i, owner, c);
        } else {
            assert(s.take(i) =~= s);
            lemma_balance_prefix(s.drop_last(), i - 1, owner, c);
        }
    }
}

/// The balance over two lists put end to end is the sum of their balances.
pub proof fn law_balance_concat(xs: Seq<StateUpdateModel>, ys: Seq<StateUpdateModel>, owner: Seq<u8>, c: Seq<u8>)
    ensures
        balance_of(xs + ys, owner, c) == balance_of(xs, owner, c) + balance_of(ys, owner, c),
    decreases ys.len(),
{
    if ys.len() == 0 {
        assert(xs + ys =~= xs);
    } else {
        assert((xs + ys).drop_last() =~= xs + ys.drop_last());
        assert((xs + ys).last() == ys.last());
        law_balance_concat(xs, ys.drop_last(), owner, c);
    }
}

/// Swapping two parts of the list does not change any balance.
pub proof fn law_balance_swap(xs: Seq<StateUpdateModel>, ys: Seq<StateUpdateModel>, owner: Seq<u8>, c: Seq<u8>)
    ensures
        balance_of(xs + ys, owner, c) == balance_of(ys + xs, owner, c),
{
    law_balance_concat(xs, ys, owner, c);
    law_balance_concat(ys, xs, owner, c);
}

proof fn lemma_balance_zero(s: Seq<StateUpdateModel>, owner: Seq<u8>, c: Seq<u8>)
    requires
        !holds_any(s, owner, c, s.len() as int),
    ensures
        balance_of(s, owner, c) == 0,
    decreases s.len(),
{
    if s.len() > 0 {
        assert(s.last() == s[s.len() - 1]);
        assert(!holds_any(s.drop_last(), owner, c, s.len() - 1)) by {
            if holds_any(s.drop_last(), owner, c, s.len() - 1) {
                let j = choose|j: int| 0 <= j < s.len() - 1 && counts_for(s.drop_last()[j], owner, c);
                assert(s.drop_last()[j] == s[j]);
            }
        }
        lemma_balance_zero(s.drop_last(), owner, c);
    }
}

fn exchanged_owner_address(p: &Property) -> (r: Option<&Address>)
    ensures
        r matches Some(a) ==> exchanged_owner(p@) == Some(a@),
        r is None ==> exchanged_owner(p@) is None,
{
    let q = match nested_at(p, 2) {
        Some(x) => x,
        None => return None,
    };
    let q_su = match nested_at(q, 2) {
        Some(x) => x,
        None => return None,
    };
    let or = match nested_at(q_su, 2) {
        Some(x) => x,
        None => return None,
    };
    let and = match nested_at(or, 0) {
        Some(x) => x,
        None => return None,
    };
    let signed_by = match nested_at(and, 1) {
        Some(x) => x,
        None => return None,
    };
    address_at(signed_by, 0)
}

/// The owner named by a state, if it names one.
fn owner_address(p: &Property) -> (r: Option<&Address>)
    ensures
        r matches Some(a) ==> owner_of(p@) == Some(a@),
        r is None ==> owner_of(p@) is None,
{
    let direct = match nested_at(p, 2) {
        Some(signed_by) => address_at(signed_by, 0),
        None => None,
    };
    match direct {
        Some(a) => Some(a),
        None => exchanged_owner_address(p),
    }
}

/// The deposit contract named by a property, if it names one.
fn deposit_contract(p: &Property) -> (r: Option<&Address>)
    ensures
        r matches Some(a) ==> deposit_contract_of(p@) == Some(a@),
        r is None ==> deposit_contract_of(p@) is None,
{
    if p.inputs.len() < 1 {
        return None;
    }
    match &p.inputs[0] {
        PropertyInput::ConstantAddress(a) => Some(a),
        _ => None,
    }
}

/// Balance per deposit contract of the updates that `my_address` owns: each
/// contract in which it holds a range appears once, with the summed lengths of
/// its ranges there; contracts where it holds nothing do not appear.
pub fn query_balance(state_updates: Vec<StateUpdate>, my_address: Address) -> (r: Vec<(Address, u64)>)
    requires
        valid_ranges(updates_view(state_updates@)),
        forall|c: Seq<u8>| #[trigger] balance_of(updates_view(state_updates@), my_address@, c) <= u64::MAX,
    ensures
        forall|k: int|
            0 <= k < r@.len() ==> (#[trigger] r@[k]).1 == balance_of(
                updates_view(state_updates@),
                my_address@,
                r@[k].0@,
            ),
        forall|k: int, l: int| 0 <= k < l < r@.len() ==> (#[trigger] r@[k]).0@ != (#[trigger] r@[l]).0@,
        forall|c: Seq<u8>|
            #[trigger] listed(r@, c) <==> holds_any(updates_view(state_updates@), my_address@, c, state_updates@.len() as int),
{
    let ghost all = updates_view(state_updates@);
    let mut r: Vec<(Address, u64)> = Vec::new();
    let mut i: usize = 0;
    while i < state_updates.len()
        invariant
            all == updates_view(state_updates@),
            valid_ranges(all),
            forall|c: Seq<u8>| #[trigger] balance_of(all, my_address@, c) <= u64::MAX,
            i <= all.len(),
            forall|k: int| 0 <= k < r@.len() ==> (#[trigger] r@[k]).1 == balance_of(all.take(i as int), my_address@, r@[k].0@),
            forall|k: int, l: int| 0 <= k < l < r@.len() ==> (#[trigger] r@[k]).0@ != (#[trigger] r@[l]).0@,
            forall|c: Seq<u8>| #[trigger] listed(r@, c) <==> holds_any(all, my_address@, c, i as int),
        decreases all.len() - i,
    {
        let s = &state_updates[i];
        let ghost sm = all[i as int];
        assert(sm == s@);
        assert(all.take(i + 1).drop_last() =~= all.take(i as int));
        assert(all.take(i + 1).last() == sm);
        let p = s.get_property();
        let hit: Option<(&Address, u64)> = match (owner_address(p), deposit_contract(p)) {
            (Some(o), Some(c)) => if o.same(&my_address) {
                let range = s.get_range();
                Some((c, range.end - range.start))
            } else {
                None
            },
            _ => None,
        };
        proof {
            let pre = all.take(i as int);
            let next = all.take(i + 1);
            assert(valid_ranges(next));
            assert forall|c: Seq<u8>| #[trigger] balance_of(next, my_address@, c) == balance_of(pre, my_address@, c)
                + if counts_for(sm, my_address@, c) { range_len(sm.range) } else { 0 } by {}
            assert forall|c: Seq<u8>| balance_of(next, my_address@, c) <= u64::MAX by {
                lemma_balance_prefix(all, i + 1, my_address@, c);
            }
        }
        match hit {
            None => {
                assert forall|k2: int| 0 <= k2 < r@.len() implies (#[trigger] r@[k2]).1 == balance_of(
                    all.take(i + 1),
                    my_address@,
                    r@[k2].0@,
                ) by {
                    assert(!counts_for(sm, my_address@, r@[k2].0@));
                }
                assert forall|c: Seq<u8>| #[trigger] listed(r@, c) <==> holds_any(all, my_address@, c, i + 1) by {
                    assert(!counts_for(all[i as int], my_address@, c));
                    if holds_any(all, my_address@, c, i + 1) {
                        let j = choose|j: int| 0 <= j < i + 1 && counts_for(all[j], my_address@, c);
                        assert(j < i);
                        assert(holds_any(all, my_address@, c, i as int));
                    }
                }
            },
            Some((c, len)) => {
                let ghost cv = c@;
                assert(counts_for(sm, my_address@, cv));
                let ghost old_r = r@;
                let mut k: usize = 0;
                while k < r.len() && !r[k].0.same(c)
                    invariant
                        k <= r@.len(),
                        r@ == old_r,
                        cv == c@,
                        forall|j: int| 0 <= j < k ==> (#[trigger] r@[j]).0@ != cv,
                    decreases r@.len() - k,
                {
                    k = k + 1;
                }
                if k < r.len() {
                    proof {
                        lemma_balance_prefix(all, i + 1, my_address@, cv);
                        assert(r@[k as int].0@ == cv);
                    }
                    let entry = (r[k].0.copy(), r[k].1 + len);
                    r.set(k, entry);
                } else {
                    proof {
                        assert(!listed(old_r, cv));
                        lemma_balance_zero(all.take(i as int), my_address@, cv);
                    }
                    r.push((c.copy(), len));
                    assert(r@[r@.len() - 1].0@ == cv);
                }
                assert forall|k2: int| 0 <= k2 < r@.len() implies (#[trigger] r@[k2]).1 == balance_of(
                    all.take(i + 1),
                    my_address@,
                    r@[k2].0@,
                ) by {
                    if k2 != k {
                        assert(r@[k2] == old_r[k2]);
                        assert(!counts_for(sm, my_address@, r@[k2].0@));
                    }
                }
                assert forall|k1: int, l1: int| 0 <= k1 < l1 < r@.len() implies (#[trigger] r@[k1]).0@ != (#[trigger] r@[l1]).0@ by {
                    if l1 == k {
                        assert(old_r[k1] == r@[k1]);
                    } else if k1 == k {
                        assert(old_r[l1] == r@[l1]);
                    } else {
                        assert(old_r[k1] == r@[k1] && old_r[l1] == r@[l1]);
                    }
                }
                assert forall|c2: Seq<u8>| #[trigger] listed(r@, c2) <==> holds_any(all, my_address@, c2, i + 1) by {
                    if c2 == cv {
                        assert(r@[k as int].0@ == cv);
                        assert(counts_for(all[i as int], my_address@, c2));
                    } else {
                        if holds_any(all, my_address@, c2, i + 1) {
                            let j = choose|j: int| 0 <= j < i + 1 && counts_for(all[j], my_address@, c2);
                            assert(j < i);
                            assert(holds_any(all, my_address@, c2, i as int));
                        }
                        if listed(r@, c2) {
                            let k2 = choose|k2: int| 0 <= k2 < r@.len() && r@[k2].0@ == c2;
                            assert(listed(old_r, c2)) by {
                                assert(old_r[k2].0@ == c2);
                            }
                        }
                        if listed(old_r, c2) {
                            let k2 = choose|k2: int| 0 <= k2 < old_r.len() && old_r[k2].0@ == c2;
                            assert(r@[k2].0@ == c2);
                        }
                    }
                }
            },
        }
        i = i + 1;
    }
    assert(all.take(all.len() as int) =~= all);
    r
}

/// The property nested at input `i`, if there is one.
pub open spec fn nested(p: PropertyModel, i: int) -> Option<PropertyModel> {
    if 0 <= i < p.inputs.len() && p.inputs[i] is Property {
        Some(p.inputs[i]->Property_0)
    } else {
        None
    }
}

/// The address at input `i`, if there is one.
pub open spec fn address_input(p: PropertyModel, i: int) -> Option<Seq<u8>> {
    if 0 <= i < p.inputs.len() && p.inputs[i] is Address {
        Some(p.inputs[i]->Address_0)
    } else {
        None
    }
}

fn nested_at(p: &Property, i: usize) -> (r: Option<&Property>)
    ensures
        r matches Some(q) ==> nested(p@, i as int) == Some(q@),
        r is None ==> nested(p@, i as int) is None,
{
    if i >= p.inputs.len() {
        return None;
    }
    match &p.inputs[i] {
        PropertyInput::ConstantProperty(q) => {
            proof {
                lemma_nested_view(*q);
            }
            Some(q)
        },
        _ => None,
    }
}

fn address_at(p: &Property, i: usize) -> (r: Option<&Address>)
    ensures
        r matches Some(a) ==> address_input(p@, i as int) == Some(a@),
        r is None ==> address_input(p@, i as int) is None,
{
    if i >= p.inputs.len() {
        return None;
    }
    match &p.inputs[i] {
        PropertyInput::ConstantAddress(a) => Some(a),
        _ => None,
    }
}

/// Token address and range of an exchange state object: the nested path
/// input 2, then input 2, then input 0, which names them at inputs 1 and 2.
pub open spec fn exchanged_of(p: PropertyModel) -> Option<(Seq<u8>, Range)> {
    match nested(p, 2) {
        Some(q) => match nested(q, 2) {
            Some(there) => match nested(there, 0) {
                Some(su) => if address_input(su, 1) is Some && su.inputs.len() > 2 && su.inputs[2] is Range {
                    Some((address_input(su, 1)->0, su.inputs[2]->Range_0))
                } else {
                    None
                },
                None => None,
            },
            None => None,
        },
        None => None,
    }
}

/// Reads the token address and range out of an exchange state object.
pub fn query_exchanged(state_object: Property) -> (r: Option<(Address, Range)>)
    ensures
        r matches Some(x) ==> exchanged_of(state_object@) == Some((x.0@, x.1)),
        r is None ==> exchanged_of(state_object@) is None,
{
    let q = match nested_at(&state_object, 2) {
        Some(q) => q,
        None => return None,
    };
    let there = match nested_at(q, 2) {
        Some(t) => t,
        None => return None,
    };
    let su = match nested_at(there, 0) {
        Some(s) => s,
        None => return None,
    };
    let token = match address_at(su, 1) {
        Some(a) => a,
        None => return None,
    };
    if su.inputs.len() <= 2 {
        return None;
    }
    assert(su@.inputs[2] == su.inputs@[2]@);
    match &su.inputs[2] {
        PropertyInput::ConstantRange(range) => Some((token.copy(), *range)),
        _ => None,
    }
}

/// Token address, amount and maker of an order-making state object: the
/// property nested at input 0 of the one at input 2 names them at inputs 1, 2
/// and 3.
pub open spec fn order_of(p: PropertyModel) -> Option<(Seq<u8>, u64, Seq<u8>)> {
    match nested(p, 2) {
        Some(or) => match nested(or, 0) {
            Some(tx) => if address_input(tx, 1) is Some && tx.inputs.len() > 2 && tx.inputs[2] is Integer
                && address_input(tx, 3) is Some {
                Some((address_input(tx, 1)->0, tx.inputs[2]->Integer_0, address_input(tx, 3)->0))
            } else {
                None
            },
            None => None,
        },
        None => None,
    }
}

/// The order-making updates of `s`, in order, with what they offer.
pub open spec fn orders(s: Seq<StateUpdateModel>) -> Seq<(StateUpdateModel, Seq<u8>, u64, Seq<u8>)>
    decreases s.len(),
{
    if s.len() == 0 {
        Seq::empty()
    } else {
        orders(s.drop_last()) + match order_of(s.last().property) {
            Some(o) => seq![(s.last(), o.0, o.1, o.2)],
            None => Seq::empty(),
        }
    }
}

pub open spec fn order_entries_view(v: Seq<(StateUpdate, Address, u64, Address)>) -> Seq<(StateUpdateModel, Seq<u8>, u64, Seq<u8>)> {
    Seq::new(v.len(), |i: int| (v[i].0@, v[i].1@, v[i].2, v[i].3@))
}

fn order_in(p: &Property) -> (r: Option<(Address, u64, Address)>)
    ensures
        r matches Some(x) ==> order_of(p@) == Some((x.0@, x.1, x.2@)),
        r is None ==> order_of(p@) is None,
{
    let or = match nested_at(p, 2) {
        Some(q) => q,
        None => return None,
    };
    let tx = match nested_at(or, 0) {
        Some(t) => t,
        None => return None,
    };
    let token = match address_at(tx, 1) {
        Some(a) => a,
        None => return None,
    };
    let maker = match address_at(tx, 3) {
        Some(a) => a,
        None => return None,
    };
    assert(tx@.inputs[2] == tx.inputs@[2]@);
    match &tx.inputs[2] {
        PropertyInput::ConstantInteger(amount) => Some((token.copy(), *amount, maker.copy())),
        _ => None,
    }
}

/// The order-making updates among `state_updates`, in order, each with the
/// token address, amount and maker address of its order.
pub fn query_orders(state_updates: Vec<StateUpdate>) -> (r: Vec<(StateUpdate, Address, u64, Address)>)
    ensures
        order_entries_view(r@) == orders(updates_view(state_updates@)),
{
    let ghost all = updates_view(state_updates@);
    let mut r: Vec<(StateUpdate, Address, u64, Address)> = Vec::new();
    let mut i: usize = 0;
    while i < state_updates.len()
        invariant
            all == updates_view(state_updates@),
            i <= all.len(),
            order_entries_view(r@) == orders(all.take(i as int)),
        decreases all.len() - i,
    {
        let s = &state_updates[i];
        assert(all.take(i + 1).drop_last() =~= all.take(i as int));
        assert(all.take(i + 1).last() == s@);
        let ghost before = r@;
        match order_in(s.get_property()) {
            Some((token, amount, maker)) => {
                r.push((s.copy(), token, amount, maker));
                assert(order_entries_view(r@) =~= order_entries_view(before) + seq![
                    (s@, r@[r@.len() - 1].1@, amount, r@[r@.len() - 1].3@),
                ]);
            },
            None => {},
        }
        assert(order_entries_view(r@) =~= orders(all.take(i + 1)));
        i = i + 1;
    }
    assert(all.take(all.len() as int) =~= all);
    r
}

} // verus!
