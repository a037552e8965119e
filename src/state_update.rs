//! Ownership records and their transition.
use vstd::prelude::*;
use crate::types::{property_wf, ErrorKind, Property, PropertyModel, Range};

verus! {

/// Error of the client layer, tagged with its kind.
#[derive(Debug)]
pub struct Error {
    kind: ErrorKind,
}

impl Error {
    pub closed spec fn view(&self) -> ErrorKind {
        self.kind
    }

    pub fn new(kind: ErrorKind) -> (r: Error)
        ensures
            r@ == kind,
    {
        Error { kind }
    }

    pub fn kind(&self) -> (r: ErrorKind)
        ensures
            r == self@,
    {
        self.kind
    }
}

/// A transaction as far as a transition reads it: the range it moves.
#[derive(Debug)]
pub struct Transaction {
    range: Range,
}

impl Transaction {
    pub closed spec fn range_spec(&self) -> Range {
        self.range
    }

    pub fn new(range: Range) -> (r: Transaction)
        ensures
            r.range_spec() == range,
    {
        Transaction { range }
    }

    pub fn get_range(&self) -> (r: Range)
        ensures
            r == self.range_spec(),
    {
        self.range
    }
}

/// Mathematical value of a state update.
pub struct StateUpdateModel {
    pub block_number: u64,
    pub range: Range,
    pub property: PropertyModel,
}

/// The claim that `range` is owned under `property` as of `block_number`.
#[derive(Debug)]
pub struct StateUpdate {
    block_number: u64,
    range: Range,
    property: Property,
}

impl StateUpdate {
    pub closed spec fn view(&self) -> StateUpdateModel {
        StateUpdateModel { block_number: self.block_number, range: self.range, property: self.property@ }
    }

    pub fn new(range: Range, property: Property, block_number: u64) -> (r: StateUpdate)
        requires
            range.wf(),
            property_wf(property@),
        ensures
            r@ == (StateUpdateModel { block_number, range, property: property@ }),
    {
        StateUpdate { block_number, range, property }
    }

    pub fn get_range(&self) -> (r: Range)
        ensures
            r == self@.range,
    {
        self.range
    }

    /// Narrows the range, keeping block number and property.
    pub fn set_range(&mut self, range: Range)
        requires
            range.wf(),
        ensures
            final(self)@ == (StateUpdateModel { range, ..old(self)@ }),
    {
        self.range = range;
    }

    pub fn get_property(&self) -> (r: &Property)
        ensures
            r@ == self@.property,
    {
        &self.property
    }

    pub fn get_block_number(&self) -> (r: u64)
        ensures
            r == self@.block_number,
    {
        self.block_number
    }

    /// A deep copy with the same model.
    pub fn copy(&self) -> (r: StateUpdate)
        ensures
            r@ == self@,
    {
        StateUpdate { block_number: self.block_number, range: self.range, property: self.property.copy() }
    }

    /// Moves ownership to the transaction's range in the next block. The
    /// property is carried over unchanged. An empty range, or one outside this
    /// update's range, is an invalid transaction.
    pub fn execute_state_transition(&self, transaction: &Transaction) -> (r: Result<StateUpdate, Error>)
        requires
            self@.block_number < u64::MAX,
        ensures
            r is Ok <==> transaction.range_spec().wf() && transaction.range_spec().within(self@.range),
            r matches Ok(s) ==> s@ == (StateUpdateModel {
                block_number: (self@.block_number + 1) as u64,
                range: transaction.range_spec(),
                property: self@.property,
            }),
            r matches Err(e) ==> e@ == ErrorKind::InvalidTransaction,
    {
        let range = transaction.get_range();
        if range.start >= range.end || !range.is_within(&self.range) {
            return Err(Error::new(ErrorKind::InvalidTransaction));
        }
        Ok(StateUpdate { block_number: self.block_number + 1, range, property: self.property.copy() })
    }
}

} // verus!
