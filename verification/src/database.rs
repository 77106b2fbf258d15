//! What the store is told: logs, cursors and uncles.

use crate::value::{Address, Value, ValueView};
use vstd::prelude::*;

verus! {

/// The cursor of an event: the last block that was indexed and the last that
/// is final.
#[derive(Debug, Default, Clone, Copy, PartialEq, Eq, Structural)]
pub struct Block {
    pub indexed: u64,
    pub finalized: u64,
}

/// A new cursor for an event.
#[derive(Debug, Default, Clone, Copy, PartialEq, Eq)]
pub struct EventBlock<'a> {
    pub event: &'a str,
    pub block: Block,
}

/// A block that turned out not to belong to the chain, for an event.
#[derive(Debug, Default, Clone, Copy, PartialEq, Eq)]
pub struct Uncle<'a> {
    pub event: &'a str,
    pub number: u64,
}

/// A log of an event: where it was found, and the values of its fields.
#[derive(Debug, Default, PartialEq, Eq)]
pub struct Log<'a> {
    pub event: &'a str,
    pub block_number: u64,
    pub log_index: u64,
    pub transaction_index: u64,
    pub address: Address,
    pub fields: Vec<Value>,
}

/// A [`Log`] as a mathematical value.
pub struct LogView {
    pub event: Seq<char>,
    pub block_number: nat,
    pub log_index: nat,
    pub transaction_index: nat,
    pub address: Seq<u8>,
    pub fields: Seq<ValueView>,
}

impl<'a> View for Log<'a> {
    type V = LogView;

    open spec fn view(&self) -> LogView {
        LogView {
            event: self.event@,
            block_number: self.block_number as nat,
            log_index: self.log_index as nat,
            transaction_index: self.transaction_index as nat,
            address: self.address@,
            fields: Value::models(self.fields@),
        }
    }
}

} // verus!
