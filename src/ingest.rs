//! The decisions of the ingestion loop: which slot to fetch after each
//! notification, what to persist after each fetch, and when to stop.
//! The loop itself, which waits for notifications, fetches blocks and
//! writes to the store, drives an [`Ingestor`] from outside.

use crate::decimal::{count_of, parse_count};
use crate::lag::{push_step, LagBuffer};
use crate::store::{
    append_writes, apply_writes, StoreKey, StoreModel, StoreValue, StoreWrite,
};
use vstd::prelude::*;

verus! {

/// The count a store resumes from, given the text it holds under `nblocks`:
/// that count if the text reads as one, else zero.
pub open spec fn resumed_count(stored: Option<Seq<char>>) -> u64 {
    match stored {
        Some(t) => match count_of(t) {
            Some(n) => n,
            None => 0,
        },
        None => 0,
    }
}

/// The state of the ingestion loop: the delay line, the number of blocks
/// the log holds, and the number after which to stop (0: never).
pub struct Ingestor {
    buffer: LagBuffer,
    count: u64,
    max_blocks: u64,
}

impl Ingestor {
    /// How many blocks the log holds.
    pub closed spec fn nblocks(&self) -> nat {
        self.count as nat
    }

    /// The configured maximum number of blocks; zero for no maximum.
    pub closed spec fn limit(&self) -> nat {
        self.max_blocks as nat
    }

    /// The slots held back in the delay line, oldest first.
    pub closed spec fn pending(&self) -> Seq<u64> {
        self.buffer@
    }

    /// The delay line's threshold.
    pub closed spec fn lag(&self) -> nat {
        self.buffer.threshold()
    }

    /// The delay line holds no more than its threshold.
    pub closed spec fn wf(&self) -> bool {
        self.buffer.wf()
    }

    /// Whether the loop is done: a maximum is set and reached.
    pub open spec fn done(&self) -> bool {
        self.limit() > 0 && self.nblocks() >= self.limit()
    }

    /// Starts (or restarts) ingestion over a store that holds `stored` under
    /// `nblocks`, numbering new blocks after the count it holds.
    pub fn resume(lag: usize, max_blocks: u64, stored: Option<&str>) -> (r: Ingestor)
        ensures
            r.wf(),
            r.lag() == lag,
            r.limit() == max_blocks,
            r.pending() == Seq::<u64>::empty(),
            r.nblocks() == resumed_count(
                match stored {
                    Some(t) => Some(t@),
                    None => None,
                },
            ),
    {
        let count = match stored {
            Some(t) => match parse_count(t) {
                Some(n) => n,
                None => 0,
            },
            None => 0,
        };
        Ingestor { buffer: LagBuffer::new(lag), count, max_blocks }
    }

    /// How many blocks the log holds.
    pub fn count(&self) -> (r: u64)
        ensures
            r == self.nblocks(),
    {
        self.count
    }

    /// Whether the loop is done.
    pub fn finished(&self) -> (r: bool)
        ensures
            r == self.done(),
    {
        self.max_blocks > 0 && self.count >= self.max_blocks
    }

    /// Takes in the notification of `slot`; returns the slot to fetch now,
    /// if the delay line released one.
    pub fn on_notification(&mut self, slot: u64) -> (r: Option<u64>)
        requires
            old(self).wf(),
        ensures
            final(self).wf(),
            final(self).lag() == old(self).lag(),
            final(self).nblocks() == old(self).nblocks(),
            final(self).limit() == old(self).limit(),
            (final(self).pending(), r) == push_step(old(self).lag(), old(self).pending(), slot),
    {
        self.buffer.push(slot)
    }

    /// Takes in the outcome of fetching the block of `slot`. When `found`,
    /// the block becomes the next one of the log, and the result holds the
    /// writes that persist it, in order; a flush of the store follows them.
    /// A miss changes nothing and persists nothing.
    pub fn record_fetch(&mut self, slot: u64, found: bool) -> (r: Vec<StoreWrite>)
        requires
            old(self).wf(),
            found ==> old(self).nblocks() < u64::MAX,
        ensures
            found ==> {
                &&& r@ == append_writes(old(self).nblocks(), slot)
                &&& final(self).nblocks() == old(self).nblocks() + 1
                &&& final(self).pending() == old(self).pending()
                &&& final(self).lag() == old(self).lag()
                &&& final(self).limit() == old(self).limit()
                &&& final(self).wf()
            },
            !found ==> r@.len() == 0 && *final(self) == *old(self),
    {
        let mut writes: Vec<StoreWrite> = Vec::new();
        if !found {
            return writes;
        }
        let n = self.count + 1;
        writes.push(StoreWrite { key: StoreKey::Block(slot), value: StoreValue::Payload(slot) });
        writes.push(StoreWrite { key: StoreKey::Count, value: StoreValue::Count(n) });
        writes.push(StoreWrite { key: StoreKey::Ordinal(n), value: StoreValue::BlockKey(slot) });
        if self.count == 0 {
            writes.push(StoreWrite { key: StoreKey::FirstKey, value: StoreValue::BlockKey(slot) });
        }
        writes.push(StoreWrite { key: StoreKey::LastKey, value: StoreValue::BlockKey(slot) });
        self.count = n;
        assert(writes@ =~= append_writes(old(self).nblocks(), slot));
        writes
    }
}

/// The store after appending the blocks of `slots`, in order, to a log of
/// `count` blocks held in `store`.
pub open spec fn ingest_run(store: StoreModel, count: nat, slots: Seq<u64>) -> StoreModel
    decreases slots.len(),
{
    if slots.len() == 0 {
        store
    } else {
        apply_writes(
            ingest_run(store, count, slots.drop_last()),
            append_writes((count + slots.len() - 1) as nat, slots.last()),
        )
    }
}

/// Append-only law: appending the block of `slot` to a log of `count`
/// blocks sets the count to `count + 1`, maps ordinal `count + 1` and
/// `last_key` to the block's key, sets `first_key` only when the log was
/// empty, stores the block's payload, and leaves every other entry as it
/// was: the mappings of ordinals `1..=count` and the payloads of other
/// slots. So a restart that resumes from `count` numbers its first block
/// `count + 1` and rewrites none of the earlier ones.
pub proof fn lemma_append_only(store: StoreModel, count: nat, slot: u64)
    requires
        count < u64::MAX,
    ensures
        ({
            let after = apply_writes(store, append_writes(count, slot));
            let n = (count + 1) as u64;
            &&& after.contains_key(StoreKey::Count)
            &&& after[StoreKey::Count] == StoreValue::Count(n)
            &&& after.contains_key(StoreKey::Ordinal(n))
            &&& after[StoreKey::Ordinal(n)] == StoreValue::BlockKey(slot)
            &&& after.contains_key(StoreKey::LastKey)
            &&& after[StoreKey::LastKey] == StoreValue::BlockKey(slot)
            &&& after.contains_key(StoreKey::Block(slot))
            &&& after[StoreKey::Block(slot)] == StoreValue::Payload(slot)
            &&& count == 0 ==> after.contains_key(StoreKey::FirstKey) && after[StoreKey::FirstKey]
                == StoreValue::BlockKey(slot)
            &&& forall|k: StoreKey|
                k != StoreKey::Count && k != StoreKey::LastKey && k != StoreKey::Ordinal(n) && k
                    != StoreKey::Block(slot) && (count == 0 ==> k != StoreKey::FirstKey) ==> (
                #[trigger] after.contains_key(k) == store.contains_key(k) && after[k] == store[k])
        }),
{
    let w = append_writes(count, slot);
    assert forall|k: int| 0 < k <= w.len() implies #[trigger] apply_writes(store, w.take(k))
        == apply_writes(store, w.take(k - 1)).insert(w[k - 1].key, w[k - 1].value) by {
        assert(w.take(k).drop_last() =~= w.take(k - 1));
    }
    assert(w.take(0) =~= Seq::<StoreWrite>::empty());
    assert(w.take(w.len() as int) =~= w);
    let a3 = apply_writes(store, w.take(3));
    assert(apply_writes(store, w.take(1)) == apply_writes(store, w.take(0)).insert(w[0].key, w[0].value));
    assert(apply_writes(store, w.take(2)) == apply_writes(store, w.take(1)).insert(w[1].key, w[1].value));
    assert(a3 == apply_writes(store, w.take(2)).insert(w[2].key, w[2].value));
    let a4 = apply_writes(store, w.take(4));
    assert(a4 == a3.insert(w[3].key, w[3].value));
    if count == 0 {
        assert(apply_writes(store, w.take(5)) == a4.insert(w[4].key, w[4].value));
    }
}

/// Sequential numbering law: appending the blocks of `slots` one after
/// another to an empty store, with no miss between them, leaves the count
/// at the number of blocks, maps each ordinal `i` in `1..=N` to the key of
/// the `i`-th block and no other ordinal to anything, holds each block's
/// payload, and sets `first_key` to the key of ordinal 1 and `last_key` to
/// the key of ordinal `N`.
pub proof fn lemma_sequential_numbering(slots: Seq<u64>)
    requires
        slots.len() < u64::MAX,
    ensures
        ({
            let st = ingest_run(Map::empty(), 0, slots);
            let n = slots.len();
            &&& n > 0 ==> st.contains_key(StoreKey::Count) && st[StoreKey::Count]
                == StoreValue::Count(n as u64)
            &&& forall|i: u64|
                1 <= i <= n ==> #[trigger] st.contains_key(StoreKey::Ordinal(i)) && st[StoreKey::Ordinal(
                    i,
                )] == StoreValue::BlockKey(slots[i - 1])
            &&& forall|i: u64| i < 1 || i > n ==> !#[trigger] st.contains_key(StoreKey::Ordinal(i))
            &&& forall|i: int|
                0 <= i < n ==> st.contains_key(StoreKey::Block(#[trigger] slots[i])) && st[StoreKey::Block(
                    slots[i],
                )] == StoreValue::Payload(slots[i])
            &&& n > 0 ==> st.contains_key(StoreKey::FirstKey) && st[StoreKey::FirstKey]
                == st[StoreKey::Ordinal(1)]
            &&& n > 0 ==> st.contains_key(StoreKey::LastKey) && st[StoreKey::LastKey]
                == st[StoreKey::Ordinal(n as u64)]
            &&& n == 0 ==> st == Map::<StoreKey, StoreValue>::empty()
        }),
    decreases slots.len(),
{
    if slots.len() > 0 {
        let prev = slots.drop_last();
        let n = slots.len();
        lemma_sequential_numbering(prev);
        let before = ingest_run(Map::empty(), 0, prev);
        let st = ingest_run(Map::empty(), 0, slots);
        lemma_append_only(before, (n - 1) as nat, slots.last());
        assert(st == apply_writes(before, append_writes((n - 1) as nat, slots.last())));
        assert(((n - 1) as nat + 1) as u64 == n as u64);
        assert forall|i: u64| 1 <= i <= n implies #[trigger] st.contains_key(StoreKey::Ordinal(i))
            && st[StoreKey::Ordinal(i)] == StoreValue::BlockKey(slots[i - 1]) by {
            if i < n {
                assert(before.contains_key(StoreKey::Ordinal(i)));
                assert(prev[i - 1] == slots[i - 1]);
                assert(StoreKey::Ordinal(i) != StoreKey::Ordinal(n as u64));
                assert(st.contains_key(StoreKey::Ordinal(i)) == before.contains_key(StoreKey::Ordinal(i)));
            } else {
                assert(i == n as u64);
                assert(slots[i - 1] == slots.last());
                assert(st.contains_key(StoreKey::Ordinal(n as u64)));
            }
        }
        assert forall|i: u64| i < 1 || i > n implies !#[trigger] st.contains_key(StoreKey::Ordinal(i)) by {
            assert(!before.contains_key(StoreKey::Ordinal(i)));
        }
        assert forall|i: int| 0 <= i < n implies st.contains_key(StoreKey::Block(#[trigger] slots[i]))
            && st[StoreKey::Block(slots[i])] == StoreValue::Payload(slots[i]) by {
            if slots[i] != slots.last() {
                assert(i < n - 1);
                assert(prev[i] == slots[i]);
                assert(before.contains_key(StoreKey::Block(prev[i])));
                assert(StoreKey::Block(slots[i]) != StoreKey::Block(slots.last()));
                assert(st.contains_key(StoreKey::Block(slots[i])) == before.contains_key(StoreKey::Block(slots[i])));
            }
        }
        if n > 1 {
            assert(before.contains_key(StoreKey::Ordinal(1)));
            assert(st.contains_key(StoreKey::Ordinal(1)));
            assert(st.contains_key(StoreKey::FirstKey) == before.contains_key(StoreKey::FirstKey));
        }
    }
}

} // verus!
