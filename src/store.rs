//! The layout of the persisted log: its keys, the values they hold, and the
//! batch of writes that appends one block.

use crate::decimal::{decimal_of, decimal_text};
use vstd::prelude::*;

verus! {

/// A key of the store.
#[derive(Clone, Copy, Debug, PartialEq, Eq, Structural)]
pub enum StoreKey {
    /// `nblocks`: how many blocks the log holds.
    Count,
    /// `first_key`: the key of the first block appended.
    FirstKey,
    /// `last_key`: the key of the last block appended.
    LastKey,
    /// `key_<ordinal>`: the key of the block at a 1-based position.
    Ordinal(u64),
    /// `block-<slot>`: the payload of the block fetched for a slot.
    Block(u64),
}

/// A value of the store.
#[derive(Clone, Copy, Debug, PartialEq, Eq, Structural)]
pub enum StoreValue {
    /// A count, written in decimal.
    Count(u64),
    /// The key of the block of a slot, as text.
    BlockKey(u64),
    /// The fetched content of the block of a slot.
    Payload(u64),
}

/// One write into the store.
#[derive(Clone, Copy, Debug, PartialEq, Eq, Structural)]
pub struct StoreWrite {
    pub key: StoreKey,
    pub value: StoreValue,
}

/// The store as a map from keys to values.
pub type StoreModel = Map<StoreKey, StoreValue>;

/// The store after `writes`, applied in order.
pub open spec fn apply_writes(store: StoreModel, writes: Seq<StoreWrite>) -> StoreModel
    decreases writes.len(),
{
    if writes.len() == 0 {
        store
    } else {
        apply_writes(store, writes.drop_last()).insert(writes.last().key, writes.last().value)
    }
}

/// The writes that append the block of `slot` to a log of `count` blocks:
/// the payload, the new count, the mapping of the new ordinal, `first_key`
/// when the log was empty, and `last_key`.
pub open spec fn append_writes(count: nat, slot: u64) -> Seq<StoreWrite> {
    let n = (count + 1) as u64;
    let head = seq![
        StoreWrite { key: StoreKey::Block(slot), value: StoreValue::Payload(slot) },
        StoreWrite { key: StoreKey::Count, value: StoreValue::Count(n) },
        StoreWrite { key: StoreKey::Ordinal(n), value: StoreValue::BlockKey(slot) },
    ];
    let first = if count == 0 {
        seq![StoreWrite { key: StoreKey::FirstKey, value: StoreValue::BlockKey(slot) }]
    } else {
        Seq::empty()
    };
    head + first + seq![StoreWrite { key: StoreKey::LastKey, value: StoreValue::BlockKey(slot) }]
}

/// The text of the key of the block of `slot`.
pub open spec fn block_key_text(slot: u64) -> Seq<char> {
    "block-"@ + decimal_of(slot as nat)
}

/// The text under which the store holds `key`.
pub open spec fn key_text(key: StoreKey) -> Seq<char> {
    match key {
        StoreKey::Count => "nblocks"@,
        StoreKey::FirstKey => "first_key"@,
        StoreKey::LastKey => "last_key"@,
        StoreKey::Ordinal(i) => "key_"@ + decimal_of(i as nat),
        StoreKey::Block(slot) => block_key_text(slot),
    }
}

/// The text the store holds for `value`; a payload has none of its own.
pub open spec fn value_text(value: StoreValue) -> Option<Seq<char>> {
    match value {
        StoreValue::Count(n) => Some(decimal_of(n as nat)),
        StoreValue::BlockKey(slot) => Some(block_key_text(slot)),
        StoreValue::Payload(_) => None,
    }
}

/// The key of the block of `slot`, as text.
pub fn block_key(slot: u64) -> (r: String)
    ensures
        r@ == block_key_text(slot),
{
    let digits = decimal_text(slot);
    String::from_str("block-").concat(digits.as_str())
}

impl StoreKey {
    /// The text under which the store holds this key.
    pub fn name(&self) -> (r: String)
        ensures
            r@ == key_text(*self),
    {
        match self {
            StoreKey::Count => String::from_str("nblocks"),
            StoreKey::FirstKey => String::from_str("first_key"),
            StoreKey::LastKey => String::from_str("last_key"),
            StoreKey::Ordinal(i) => {
                let digits = decimal_text(*i);
                String::from_str("key_").concat(digits.as_str())
            },
            StoreKey::Block(slot) => block_key(*slot),
        }
    }
}

impl StoreValue {
    /// The text the store holds for this value; `None` for a payload, which
    /// the fetcher supplies.
    pub fn text(&self) -> (r: Option<String>)
        ensures
            match r {
                Some(t) => value_text(*self) == Some(t@),
                None => value_text(*self).is_none(),
            },
    {
        match self {
            StoreValue::Count(n) => Some(decimal_text(*n)),
            StoreValue::BlockKey(slot) => Some(block_key(*slot)),
            StoreValue::Payload(_) => None,
        }
    }
}

} // verus!
