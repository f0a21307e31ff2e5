//! A concurrent hash map on top of the operation-log writer.
//!
//! The map keeps a hash table in each buffer. An insertion or a removal is
//! an operation in the log; a publish brings the writer's table up to date
//! and shows it to the readers.
use vstd::prelude::*;
use vstd::bytes::{spec_u64_to_le_bytes, u64_to_le_bytes};
use vstd::multiset::Multiset;
use vstd::std_specs::hash::DefaultHasherAdditionalSpecFns;
use core::hash::Hasher;
use hashbrown::HashTable;
use crate::delay::DelayWriter;
use crate::interface::{reader_frame, writer_frame, Strategy, StrategyModel};
use crate::op::{never_refuses, publishes, replays, retires, OpWriter, Operation};
use crate::raw::DoubleBufferData;
use crate::strategy::flash_park_token::AdaptiveParkToken;
use crate::strategy::flashmap::FlashStrategy;

verus! {

broadcast use vstd::multiset::group_multiset_axioms;

/// A `hashbrown::HashTable` of pairs of a key and a value. Nothing is seen
/// of the table itself; what it holds is known by [`entries`].
#[verifier::external_body]
pub struct RawTable {
    table: HashTable<(u64, u64)>,
}

/// What the table holds: every pair in it, together with the hash under
/// which the pair was inserted.
pub uninterp spec fn entries(table: RawTable) -> Multiset<(u64, (u64, u64))>;

/// The pairs that the table holds, without their hashes.
pub uninterp spec fn contents(table: RawTable) -> Multiset<(u64, u64)>;

/// The hash of a key: what the standard hasher makes of its eight bytes.
pub open spec fn spec_hash(key: u64) -> u64 {
    std::hash::DefaultHasher::spec_finish(seq![spec_u64_to_le_bytes(key)])
}

/// Makes the hashes of the keys.
pub struct DefaultHasher;

impl DefaultHasher {
    pub fn new() -> Self {
        DefaultHasher
    }

    /// The hash of `key`.
    pub fn hash_one(&self, key: u64) -> (hash: u64)
        ensures
            hash == spec_hash(key),
    {
        let mut state = std::hash::DefaultHasher::new();
        let bytes = u64_to_le_bytes(key);
        state.write(bytes.as_slice());
        proof {
            assert(state@ =~= seq![spec_u64_to_le_bytes(key)]);
        }
        state.finish()
    }
}

/// Whether a pair has the key.
fn has_key(pair: &(u64, u64), key: u64) -> (has: bool)
    ensures
        has == (pair.0 == key),
{
    pair.0 == key
}

/// The hash of the key of a pair.
fn hash_of_pair(pair: &(u64, u64)) -> (hash: u64)
    ensures
        hash == spec_hash(pair.0),
{
    DefaultHasher.hash_one(pair.0)
}

/// An empty table, by `HashTable::new`.
#[verifier::external_body]
fn new_table() -> (table: RawTable)
    ensures
        entries(table) == Multiset::<(u64, (u64, u64))>::empty(),
        contents(table) == Multiset::<(u64, u64)>::empty(),
{
    RawTable { table: HashTable::new() }
}

/// Looks a key up by `HashTable::find`, with the equality "has this key".
/// What comes back is a pair of the table with the key. The search tries
/// every pair that was inserted under `hash`, so if nothing comes back no
/// pair with the key was inserted under `hash`.
#[verifier::external_body]
fn find(table: &RawTable, hash: u64, key: u64) -> (found: Option<(u64, u64)>)
    ensures
        match found {
            Some(pair) => pair.0 == key && exists|h: u64| entries(*table).count((h, pair)) > 0,
            None => forall|value: u64| entries(*table).count((hash, (key, value))) == 0,
        },
{
    table.table.find(hash, |pair| has_key(pair, key)).copied()
}

/// Looks a key up by `HashTable::find_mut`, with the equality "has this
/// key", and hands out the pair in place. The table then holds what the
/// caller leaves in the pair, under the hash of before. If nothing comes
/// back, no pair with the key was inserted under `hash`.
#[verifier::external_body]
fn find_mut(table: &mut RawTable, hash: u64, key: u64) -> (found: Option<&mut (u64, u64)>)
    ensures
        match found {
            Some(pair) => {
                &&& pair.0 == key
                &&& exists|h: u64|
                    entries(*old(table)).count((h, *pair)) > 0 && entries(*final(table))
                        == entries(*old(table)).remove((h, *pair)).insert((h, *final(pair)))
                &&& contents(*final(table)) == contents(*old(table)).remove(*pair).insert(
                    *final(pair),
                )
            },
            None => {
                &&& entries(*final(table)) == entries(*old(table))
                &&& contents(*final(table)) == contents(*old(table))
                &&& forall|value: u64| entries(*old(table)).count((hash, (key, value))) == 0
            },
        },
{
    table.table.find_mut(hash, |pair| has_key(pair, key))
}

/// Inserts a pair under `hash` by `HashTable::insert_unique`, which does
/// not look whether the key is there already. When the table grows it asks
/// for the hash of each pair again: every pair must have been inserted
/// under the hash of its key. A table cannot hold so many pairs that the
/// number of its buckets overflows: they would not fit in memory.
#[verifier::external_body]
fn insert_unique(table: &mut RawTable, hash: u64, pair: (u64, u64))
    requires
        forall|h: u64, p: (u64, u64)| entries(*old(table)).count((h, p)) > 0 ==> h == spec_hash(p.0),
    ensures
        entries(*final(table)) == entries(*old(table)).insert((hash, pair)),
        contents(*final(table)) == contents(*old(table)).insert(pair),
{
    table.table.insert_unique(hash, pair, |pair| hash_of_pair(pair));
}

/// Looks a key up by `HashTable::find_entry`, with the equality "has this
/// key", and takes the pair out by `OccupiedEntry::remove`. If nothing comes
/// back, the table is as it was and no pair with the key was inserted under
/// `hash`.
#[verifier::external_body]
fn remove_entry(table: &mut RawTable, hash: u64, key: u64) -> (removed: Option<(u64, u64)>)
    ensures
        match removed {
            Some(pair) => {
                &&& pair.0 == key
                &&& exists|h: u64|
                    entries(*old(table)).count((h, pair)) > 0 && entries(*final(table))
                        == entries(*old(table)).remove((h, pair))
                &&& contents(*final(table)) == contents(*old(table)).remove(pair)
            },
            None => {
                &&& entries(*final(table)) == entries(*old(table))
                &&& contents(*final(table)) == contents(*old(table))
                &&& forall|value: u64| entries(*old(table)).count((hash, (key, value))) == 0
            },
        },
{
    match table.table.find_entry(hash, |pair| has_key(pair, key)) {
        Ok(entry) => Some(entry.remove().0),
        Err(_) => None,
    }
}

/// Every pair of the table, in the order in which `HashTable::iter` walks
/// the table, which is not said. Each pair comes as often as the table
/// holds it.
#[verifier::external_body]
fn pairs(table: &RawTable) -> (pairs: Vec<(u64, u64)>)
    ensures
        pairs@.to_multiset() == contents(*table),
{
    table.table.iter().copied().collect()
}

/// Whether what a table holds is a map: every pair lies under the hash of
/// its key, and no key has two pairs.
pub open spec fn keyed(held: Multiset<(u64, (u64, u64))>) -> bool {
    &&& forall|h: u64, pair: (u64, u64)| #[trigger] held.count((h, pair)) > 0 ==> h == spec_hash(pair.0)
        && held.count((h, pair)) == 1
    &&& forall|h: u64, key: u64, a: u64, b: u64|
        #[trigger] held.count((h, (key, a))) > 0 && #[trigger] held.count((h, (key, b))) > 0 ==> a
            == b
}

/// Whether `pairs` are the pairs of `held`, each under the hash of its key.
pub open spec fn hashed(held: Multiset<(u64, (u64, u64))>, pairs: Multiset<(u64, u64)>) -> bool {
    forall|pair: (u64, u64)| #[trigger] pairs.count(pair) == held.count((spec_hash(pair.0), pair))
}

/// The map that a table holds.
pub open spec fn map_of(held: Multiset<(u64, (u64, u64))>) -> Map<u64, u64> {
    Map::new(
        |key: u64| exists|value: u64| held.count((spec_hash(key), (key, value))) > 0,
        |key: u64| choose|value: u64| held.count((spec_hash(key), (key, value))) > 0,
    )
}

/// A hash table that holds a map from keys to values.
pub struct Table {
    raw: RawTable,
}

impl View for Table {
    type V = Map<u64, u64>;

    closed spec fn view(&self) -> Map<u64, u64> {
        map_of(entries(self.raw))
    }
}

impl Table {
    #[verifier::type_invariant]
    spec fn is_keyed(self) -> bool {
        &&& keyed(entries(self.raw))
        &&& hashed(entries(self.raw), contents(self.raw))
    }

    /// An empty table.
    pub fn new() -> (table: Self)
        ensures
            table@ == Map::<u64, u64>::empty(),
    {
        let table = Table { raw: new_table() };
        assert(table@ =~= Map::<u64, u64>::empty());
        table
    }

    /// The pair of `key`, if the table has one.
    pub fn get_key_value(&self, hasher: &DefaultHasher, key: u64) -> (pair: Option<(u64, u64)>)
        ensures
            pair == if self@.contains_key(key) {
                Some((key, self@[key]))
            } else {
                None
            },
    {
        proof {
            use_type_invariant(self);
        }
        let hash = hasher.hash_one(key);
        let found = find(&self.raw, hash, key);
        proof {
            if found is Some {
                let pair = found->Some_0;
                let h = choose|h: u64| entries(self.raw).count((h, pair)) > 0;
                assert(entries(self.raw).count((spec_hash(key), (key, pair.1))) > 0);
                let held = choose|value: u64|
                    entries(self.raw).count((spec_hash(key), (key, value))) > 0;
                assert(held == pair.1);
            }
        }
        found
    }

    /// Every pair of the table, each once, in no particular order.
    pub fn iter(&self) -> (pairs: Vec<(u64, u64)>)
        ensures
            pairs@.no_duplicates(),
            forall|key: u64, value: u64|
                pairs@.contains((key, value)) <==> self@.contains_pair(key, value),
    {
        proof {
            use_type_invariant(self);
        }
        let pairs = pairs(&self.raw);
        proof {
            let held = entries(self.raw);
            let all = contents(self.raw);
            assert forall|key: u64, value: u64|
                pairs@.contains((key, value)) <==> self@.contains_pair(key, value) by {
                pairs@.to_multiset_ensures();
                assert(all.count((key, value)) == held.count((spec_hash(key), (key, value))));
                if pairs@.contains((key, value)) {
                    let v = choose|v: u64| held.count((spec_hash(key), (key, v))) > 0;
                    assert(v == value);
                }
                if self@.contains_pair(key, value) {
                    let v = choose|v: u64| held.count((spec_hash(key), (key, v))) > 0;
                    assert(held.count((spec_hash(key), (key, value))) > 0);
                }
            }
            assert forall|pair: (u64, u64)| pairs@.to_multiset().count(pair) <= 1 by {
                assert(all.count(pair) == held.count((spec_hash(pair.0), pair)));
            }
            pairs@.lemma_multiset_has_no_duplicates_conv();
        }
        pairs
    }

    /// Puts `value` under `key`, in place of what was there.
    pub fn insert(&mut self, hasher: &DefaultHasher, key: u64, value: u64)
        ensures
            final(self)@ == old(self)@.insert(key, value),
    {
        proof {
            use_type_invariant(&*self);
        }
        let ghost held = entries(self.raw);
        let ghost all = contents(self.raw);
        let hash = hasher.hash_one(key);
        // the table is taken out while it is worked on
        let mut raw = new_table();
        core::mem::swap(&mut self.raw, &mut raw);
        match find_mut(&mut raw, hash, key) {
            Some(old_entry) => {
                let ghost was = old_entry.1;
                *old_entry = (key, value);
                proof {
                    let now = entries(raw);
                    assert(exists|h: u64, was: u64|
                        held.count((h, (key, was))) > 0 && now == held.remove(
                            (h, (key, was)),
                        ).insert((h, (key, value))));
                }
            },
            None => {
                insert_unique(&mut raw, hash, (key, value));
            },
        }
        proof {
            lemma_put(held, entries(raw), key, value);
            assert forall|pair: (u64, u64)| #[trigger]
                contents(raw).count(pair) == entries(raw).count((spec_hash(pair.0), pair)) by {
                assert(all.count(pair) == held.count((spec_hash(pair.0), pair)));
            }
        }
        core::mem::swap(&mut self.raw, &mut raw);
    }

    /// Takes `key` and its value out.
    pub fn remove(&mut self, hasher: &DefaultHasher, key: u64)
        ensures
            final(self)@ == old(self)@.remove(key),
    {
        proof {
            use_type_invariant(&*self);
        }
        let ghost held = entries(self.raw);
        let ghost all = contents(self.raw);
        let hash = hasher.hash_one(key);
        // the table is taken out while it is worked on
        let mut raw = new_table();
        core::mem::swap(&mut self.raw, &mut raw);
        let removed = remove_entry(&mut raw, hash, key);
        proof {
            let now = entries(raw);
            assert forall|pair: (u64, u64)| #[trigger]
                contents(raw).count(pair) == entries(raw).count((spec_hash(pair.0), pair)) by {
                assert(all.count(pair) == held.count((spec_hash(pair.0), pair)));
                if removed is Some {
                    let gone = removed->Some_0;
                    let h = choose|h: u64|
                        held.count((h, gone)) > 0 && now == held.remove((h, gone));
                    assert(h == spec_hash(gone.0));
                }
            }
            if removed is Some {
                let pair = removed->Some_0;
                let h = choose|h: u64| held.count((h, pair)) > 0 && now == held.remove((h, pair));
                assert(pair == (key, pair.1));
                assert(held.count((h, (key, pair.1))) > 0 && now == held.remove(
                    (h, (key, pair.1)),
                ));
            }
            lemma_take(held, now, key);
        }
        core::mem::swap(&mut self.raw, &mut raw);
    }
}

/// What putting a value under a key makes of a map that a table holds.
proof fn lemma_put(held: Multiset<(u64, (u64, u64))>, now: Multiset<(u64, (u64, u64))>, key: u64, value: u64)
    requires
        keyed(held),
        (exists|h: u64, was: u64|
            held.count((h, (key, was))) > 0 && now == held.remove((h, (key, was))).insert(
                (h, (key, value)),
            )) || (now == held.insert((spec_hash(key), (key, value))) && forall|was: u64|
            held.count((spec_hash(key), (key, was))) == 0),
    ensures
        keyed(now),
        map_of(now) == map_of(held).insert(key, value),
{
    let hash = spec_hash(key);
    assert forall|h: u64, pair: (u64, u64)| #[trigger] now.count((h, pair)) > 0 implies h
        == spec_hash(pair.0) && now.count((h, pair)) == 1 by {
        if pair.0 != key {
            assert(held.count((h, pair)) > 0);
        } else if pair.1 != value {
            assert(held.count((h, pair)) > 0);
        } else if h != hash {
            assert(held.count((h, pair)) > 0);
        }
    }
    assert forall|h: u64, k: u64, a: u64, b: u64|
        #[trigger] now.count((h, (k, a))) > 0 && #[trigger] now.count((h, (k, b))) > 0 implies a
        == b by {
        if k != key {
            assert(held.count((h, (k, a))) > 0 && held.count((h, (k, b))) > 0);
        } else {
            if a != value {
                assert(held.count((h, (k, a))) > 0);
            }
            if b != value {
                assert(held.count((h, (k, b))) > 0);
            }
        }
    }
    assert(now.count((hash, (key, value))) > 0);
    assert forall|k: u64| map_of(now).contains_key(k) == map_of(held).insert(
        key,
        value,
    ).contains_key(k) by {
        if k != key {
            if map_of(now).contains_key(k) {
                let v = choose|v: u64| now.count((spec_hash(k), (k, v))) > 0;
                assert(held.count((spec_hash(k), (k, v))) > 0);
            }
            if map_of(held).contains_key(k) {
                let v = choose|v: u64| held.count((spec_hash(k), (k, v))) > 0;
                assert(now.count((spec_hash(k), (k, v))) > 0);
            }
        }
    }
    assert forall|k: u64| map_of(now).contains_key(k) implies map_of(now)[k] == map_of(
        held,
    ).insert(key, value)[k] by {
        let v = choose|v: u64| now.count((spec_hash(k), (k, v))) > 0;
        if k != key {
            assert(held.count((spec_hash(k), (k, v))) > 0);
            let w = choose|w: u64| held.count((spec_hash(k), (k, w))) > 0;
            assert(v == w);
        } else {
            assert(v == value);
        }
    }
    assert(map_of(now) =~= map_of(held).insert(key, value));
}

/// What taking a key out makes of a map that a table holds.
proof fn lemma_take(held: Multiset<(u64, (u64, u64))>, now: Multiset<(u64, (u64, u64))>, key: u64)
    requires
        keyed(held),
        (exists|h: u64, was: u64|
            held.count((h, (key, was))) > 0 && now == held.remove((h, (key, was)))) || (now == held
            && forall|was: u64| held.count((spec_hash(key), (key, was))) == 0),
    ensures
        keyed(now),
        map_of(now) == map_of(held).remove(key),
{
    assert forall|h: u64, pair: (u64, u64)| #[trigger] now.count((h, pair)) > 0 implies h
        == spec_hash(pair.0) && now.count((h, pair)) == 1 by {
        assert(held.count((h, pair)) > 0);
    }
    assert forall|h: u64, k: u64, a: u64, b: u64|
        #[trigger] now.count((h, (k, a))) > 0 && #[trigger] now.count((h, (k, b))) > 0 implies a
        == b by {
        assert(held.count((h, (k, a))) > 0 && held.count((h, (k, b))) > 0);
    }
    assert forall|k: u64| map_of(now).contains_key(k) == map_of(held).remove(key).contains_key(
        k,
    ) by {
        if map_of(now).contains_key(k) {
            let v = choose|v: u64| now.count((spec_hash(k), (k, v))) > 0;
            assert(held.count((spec_hash(k), (k, v))) > 0);
            if k == key {
                if exists|h: u64, was: u64|
                    held.count((h, (key, was))) > 0 && now == held.remove((h, (key, was))) {
                    let (h, was) = choose|h: u64, was: u64|
                        held.count((h, (key, was))) > 0 && now == held.remove((h, (key, was)));
                    assert(h == spec_hash(key));
                    assert(was == v);
                }
            }
        }
        if k != key && map_of(held).contains_key(k) {
            let v = choose|v: u64| held.count((spec_hash(k), (k, v))) > 0;
            assert(now.count((spec_hash(k), (k, v))) > 0);
        }
    }
    assert forall|k: u64| map_of(now).contains_key(k) implies map_of(now)[k] == map_of(
        held,
    ).remove(key)[k] by {
        let v = choose|v: u64| now.count((spec_hash(k), (k, v))) > 0;
        assert(held.count((spec_hash(k), (k, v))) > 0);
        let w = choose|w: u64| held.count((spec_hash(k), (k, w))) > 0;
        assert(v == w);
    }
    assert(map_of(now) =~= map_of(held).remove(key));
}

/// A change of the map, kept in the log until both tables have seen it.
#[derive(Clone, Copy)]
pub enum HashTableOperation {
    Insert { key: u64, value: u64 },
    Remove { key: u64 },
}

impl HashTableOperation {
    /// What the change makes of a map.
    pub open spec fn effect(self, map: Map<u64, u64>) -> Map<u64, u64> {
        match self {
            HashTableOperation::Insert { key, value } => map.insert(key, value),
            HashTableOperation::Remove { key } => map.remove(key),
        }
    }

    fn perform(&self, buffer: &mut Table, hasher: &DefaultHasher)
        ensures
            final(buffer)@ == self.effect(old(buffer)@),
    {
        match self {
            HashTableOperation::Insert { key, value } => {
                buffer.insert(hasher, *key, *value);
            },
            HashTableOperation::Remove { key } => {
                buffer.remove(hasher, *key);
            },
        }
    }
}

impl Operation<Table, DefaultHasher, ()> for HashTableOperation {
    open spec fn applies(
        self,
        buffer: Table,
        extra: DefaultHasher,
        params: (),
        after: (Self, Table, ()),
    ) -> bool {
        &&& after.0 == self
        &&& after.1@ == self.effect(buffer@)
    }

    open spec fn applies_once(
        self,
        buffer: Table,
        extra: DefaultHasher,
        params: (),
        after: (Table, ()),
    ) -> bool {
        after.0@ == self.effect(buffer@)
    }

    fn apply(&mut self, buffer: &mut Table, hasher: &DefaultHasher, params: &mut ()) {
        self.perform(buffer, hasher)
    }

    fn apply_once(self, buffer: &mut Table, hasher: &DefaultHasher, params: &mut ()) {
        self.perform(buffer, hasher)
    }
}

/// What the changes, in order, make of a map.
pub open spec fn effects(ops: Seq<HashTableOperation>, map: Map<u64, u64>) -> Map<u64, u64>
    decreases ops.len(),
{
    if ops.len() == 0 {
        map
    } else {
        effects(ops.drop_first(), ops.first().effect(map))
    }
}

/// The changes of `first` and then those of `second` are the changes of both.
pub proof fn lemma_effects_concat(
    first: Seq<HashTableOperation>,
    second: Seq<HashTableOperation>,
    map: Map<u64, u64>,
)
    ensures
        effects(first + second, map) == effects(second, effects(first, map)),
    decreases first.len(),
{
    if first.len() == 0 {
        assert(first + second =~= second);
    } else {
        assert((first + second).drop_first() =~= first.drop_first() + second);
        lemma_effects_concat(first.drop_first(), second, first.first().effect(map));
    }
}

/// Retiring changes makes of the table what the changes make of its map.
pub proof fn lemma_retires_effects(
    ops: Seq<HashTableOperation>,
    buffer: Table,
    extra: DefaultHasher,
    after: (Table, ()),
)
    requires
        retires(ops, buffer, extra, (), after),
    ensures
        after.0@ == effects(ops, buffer@),
    decreases ops.len(),
{
    if ops.len() > 0 {
        let mid = choose|mid: (Table, ())|
            #[trigger] ops.first().applies_once(buffer, extra, (), mid) && retires(
                ops.drop_first(),
                mid.0,
                extra,
                mid.1,
                after,
            );
        lemma_retires_effects(ops.drop_first(), mid.0, extra, after);
    }
}

/// Applying changes makes of the table what the changes make of its map, and
/// leaves the changes as they are.
pub proof fn lemma_replays_effects(
    ops: Seq<HashTableOperation>,
    buffer: Table,
    extra: DefaultHasher,
    after: (Seq<HashTableOperation>, Table, ()),
)
    requires
        replays(ops, buffer, extra, (), after),
    ensures
        after.0 == ops,
        after.1@ == effects(ops, buffer@),
    decreases ops.len(),
{
    if ops.len() > 0 {
        let mid = choose|mid: (HashTableOperation, Table, ())|
            {
                &&& #[trigger] ops.first().applies(buffer, extra, (), mid)
                &&& after.0.len() > 0
                &&& after.0.first() == mid.0
                &&& replays(
                    ops.drop_first(),
                    mid.1,
                    extra,
                    mid.2,
                    (after.0.drop_first(), after.1, after.2),
                )
            };
        lemma_replays_effects(
            ops.drop_first(),
            mid.1,
            extra,
            (after.0.drop_first(), after.1, after.2),
        );
        assert(after.0 =~= seq![after.0.first()] + after.0.drop_first());
        assert(ops =~= seq![ops.first()] + ops.drop_first());
    } else {
        assert(after.0 =~= ops);
    }
}

/// A publish makes of the writer's table what all changes of the log make
/// of its map, and keeps in the log those that it applied for the first time.
pub proof fn lemma_publishes_effects(
    log: Seq<HashTableOperation>,
    water_line: int,
    buffer: Table,
    extra: DefaultHasher,
    after: (Seq<HashTableOperation>, Table, ()),
)
    requires
        0 <= water_line <= log.len(),
        publishes(log, water_line, buffer, extra, (), after),
    ensures
        after.0 == log.skip(water_line),
        after.1@ == effects(log, buffer@),
{
    let mid = choose|mid: (Table, ())|
        #[trigger] retires(log.take(water_line), buffer, extra, (), mid) && replays(
            log.skip(water_line),
            mid.0,
            extra,
            mid.1,
            after,
        );
    lemma_retires_effects(log.take(water_line), buffer, extra, mid);
    lemma_replays_effects(log.skip(water_line), mid.0, extra, after);
    lemma_effects_concat(log.take(water_line), log.skip(water_line), buffer@);
    assert(log.take(water_line) + log.skip(water_line) =~= log);
}

/// The strategy of the map.
pub type TableStrategy = FlashStrategy<AdaptiveParkToken>;

/// The payload of the map: two tables, and the hasher as the extra value.
pub type TableData = DoubleBufferData<Table, TableStrategy, DefaultHasher>;

/// The writer of a map.
pub struct Writer {
    writer: OpWriter<TableStrategy, HashTableOperation>,
}

/// A reader of a map.
pub struct Reader {
    reader: crate::raw::Reader<TableStrategy>,
}

/// A guard on the table that the readers see.
pub struct TableGuard {
    reader: crate::raw::ReaderGuard<TableStrategy>,
}

/// A guard on one value of the table that the readers see.
pub struct ReadGuard {
    reader: TableGuard,
    key: u64,
    value: u64,
}

impl Writer {
    /// The operation-log writer inside.
    pub closed spec fn inner(&self) -> OpWriter<TableStrategy, HashTableOperation> {
        self.writer
    }

    /// The changes that are not in both tables yet.
    pub open spec fn log(&self) -> Seq<HashTableOperation> {
        self.inner().log()
    }

    /// This writer drives `data`.
    pub open spec fn wf(&self, data: &TableData) -> bool {
        self.inner().wf(data)
    }

    /// A new, empty map: its writer and its payload.
    pub fn new() -> (map: (Self, TableData))
        ensures
            map.0.wf(&map.1),
            map.0.log() == Seq::<HashTableOperation>::empty(),
            map.0.inner().water_line() == 0,
            map.0.inner().inner().pending() is None,
            map.1.cell(false)@ == Map::<u64, u64>::empty(),
            map.1.cell(true)@ == Map::<u64, u64>::empty(),
            map.1.protocol() == crate::protocol::Protocol::init(),
    {
        Self::with_hasher(DefaultHasher::new())
    }

    /// A new, empty map with the given hasher: its writer and its payload.
    pub fn with_hasher(hasher: DefaultHasher) -> (map: (Self, TableData))
        ensures
            map.0.wf(&map.1),
            map.0.log() == Seq::<HashTableOperation>::empty(),
            map.0.inner().water_line() == 0,
            map.0.inner().inner().pending() is None,
            map.1.cell(false)@ == Map::<u64, u64>::empty(),
            map.1.cell(true)@ == Map::<u64, u64>::empty(),
            map.1.protocol() == crate::protocol::Protocol::init(),
    {
        let mut data = DoubleBufferData::with_extras(
            Table::new(),
            Table::new(),
            FlashStrategy::new(),
            hasher,
        );
        let writer = crate::raw::Writer::new(&mut data);
        let writer = OpWriter::from_writer(DelayWriter::from_writer(writer));
        (Self { writer }, data)
    }

    /// A new reader of the map.
    pub fn reader(&self, data: &mut TableData) -> (reader: Reader)
        requires
            self.wf(old(data)),
        ensures
            self.wf(final(data)),
            reader.wf(final(data)),
            final(data).protocol() == old(data).protocol(),
            final(data).same_values(old(data)),
            reader_frame(&old(data).strategy(), &final(data).strategy()),
    {
        Reader { reader: self.writer.as_delay().as_writer().reader(data) }
    }

    /// Notes that `value` is to be put under `key`. Readers see it after the
    /// next publish.
    pub fn insert(&mut self, key: u64, value: u64)
        ensures
            final(self).inner().inner() == old(self).inner().inner(),
            final(self).log() == old(self).log().push(HashTableOperation::Insert { key, value }),
            final(self).inner().water_line() == old(self).inner().water_line(),
    {
        self.writer.push(HashTableOperation::Insert { key, value })
    }

    /// Notes that `key` is to be taken out. Readers see it after the next
    /// publish.
    pub fn remove(&mut self, key: u64)
        ensures
            final(self).inner().inner() == old(self).inner().inner(),
            final(self).log() == old(self).log().push(HashTableOperation::Remove { key }),
            final(self).inner().water_line() == old(self).inner().water_line(),
    {
        self.writer.push(HashTableOperation::Remove { key })
    }

    /// Whether the writer's table has `key`. What is only noted does not count.
    pub fn contains_key(&self, data: &TableData, key: u64) -> (contains: bool)
        requires
            self.wf(data),
        ensures
            contains == data.write_value()@.contains_key(key),
    {
        self.get(data, key).is_some()
    }

    /// The pair of `key` in the writer's table.
    pub fn get_key_value(&self, data: &TableData, key: u64) -> (pair: Option<(u64, u64)>)
        requires
            self.wf(data),
        ensures
            pair == if data.write_value()@.contains_key(key) {
                Some((key, data.write_value()@[key]))
            } else {
                None
            },
    {
        let writer = self.writer.as_delay().as_writer();
        let map = writer.get(data);
        let hasher = writer.extras(data);
        map.get_key_value(hasher, key)
    }

    /// The value of `key` in the writer's table.
    pub fn get(&self, data: &TableData, key: u64) -> (value: Option<u64>)
        requires
            self.wf(data),
        ensures
            value == if data.write_value()@.contains_key(key) {
                Some(data.write_value()@[key])
            } else {
                None
            },
    {
        match self.get_key_value(data, key) {
            Some((_, value)) => Some(value),
            None => None,
        }
    }

    /// Publishes what has been noted: finishes the swap under way, brings
    /// the writer's table up to date with the log, and starts a swap, after
    /// which readers see that table.
    ///
    /// While a reader still pins the table that the swap under way hands
    /// over, nothing is published and `false` comes back.
    pub fn publish(&mut self, data: &mut TableData) -> (done: bool)
        requires
            old(self).wf(old(data)),
        ensures
            final(self).wf(final(data)),
            reader_frame(&old(data).strategy(), &final(data).strategy()),
            final(data).protocol().held_plain == old(data).protocol().held_plain,
            final(data).protocol().held_swapped == old(data).protocol().held_swapped,
            done == old(self).inner().inner().settled(old(data)),
            done ==> {
                let target = old(self).inner().inner().target(old(data));
                &&& final(data).cell(target)@ == effects(old(self).log(), old(data).cell(target)@)
                &&& final(data).cell(!target) == old(data).cell(!target)
                &&& final(self).log() == old(self).log().skip(old(self).inner().water_line())
                &&& final(self).inner().water_line() == final(self).log().len()
                &&& final(data).protocol().swapped == !target
                &&& final(data).read_value() == final(data).cell(target)
            },
            !done ==> {
                &&& final(self).log() == old(self).log()
                &&& final(self).inner().water_line() == old(self).inner().water_line()
                &&& final(data).same_values(old(data))
                &&& final(data).protocol() == old(data).protocol()
            },
    {
        let ghost target = self.inner().inner().target(data);
        let mut params = ();
        proof {
            assert(never_refuses::<TableStrategy>());
        }
        let done = self.writer.swap_buffers(data, &mut params);
        proof {
            if done {
                lemma_publishes_effects(
                    old(self).log(),
                    old(self).inner().water_line(),
                    old(data).cell(target),
                    old(data).extras(),
                    (self.log(), data.cell(target), ()),
                );
            }
        }
        done
    }
}

impl Reader {
    /// The raw reader inside.
    pub closed spec fn inner(&self) -> crate::raw::Reader<TableStrategy> {
        self.reader
    }

    /// This reader is registered with `data` and holds no guard.
    pub open spec fn wf(&self, data: &TableData) -> bool {
        self.inner().wf(data)
    }

    /// Takes a guard on the table that the readers see.
    pub fn load(self, data: &mut TableData) -> (guard: TableGuard)
        requires
            self.wf(old(data)),
        ensures
            guard.wf(final(data)),
            guard.inner().parity() == old(data).protocol().swapped,
            final(data).protocol() == old(data).protocol().acquire(),
            final(data).same_values(old(data)),
            writer_frame(&old(data).strategy(), &final(data).strategy()),
    {
        TableGuard { reader: self.reader.read(data) }
    }

    /// A new reader of the same map.
    pub fn clone(&self, data: &mut TableData) -> (fresh: Self)
        requires
            old(data).wf(),
        ensures
            fresh.wf(final(data)),
            final(data).protocol() == old(data).protocol(),
            final(data).same_values(old(data)),
            writer_frame(&old(data).strategy(), &final(data).strategy()),
            reader_frame(&old(data).strategy(), &final(data).strategy()),
    {
        Reader { reader: self.reader.clone(Ok::<&mut TableData, ()>(data)) }
    }
}

impl TableGuard {
    /// The raw guard inside.
    pub closed spec fn inner(&self) -> crate::raw::ReaderGuard<TableStrategy> {
        self.reader
    }

    /// This guard is outstanding on `data`.
    pub open spec fn wf(&self, data: &TableData) -> bool {
        self.inner().wf(data)
    }

    /// The map that this guard pins.
    pub open spec fn pinned(&self, data: &TableData) -> Map<u64, u64> {
        data.cell(self.inner().cell())@
    }

    /// Whether the pinned table has `key`.
    pub fn contains_key(&self, data: &TableData, key: u64) -> (contains: bool)
        ensures
            contains == self.pinned(data).contains_key(key),
    {
        self.get(data, key).is_some()
    }

    /// The value of `key` in the pinned table.
    pub fn get(&self, data: &TableData, key: u64) -> (value: Option<u64>)
        ensures
            value == if self.pinned(data).contains_key(key) {
                Some(self.pinned(data)[key])
            } else {
                None
            },
    {
        match self.get_key_value(data, key) {
            Some((_, value)) => Some(value),
            None => None,
        }
    }

    /// The pair of `key` in the pinned table.
    pub fn get_key_value(&self, data: &TableData, key: u64) -> (pair: Option<(u64, u64)>)
        ensures
            pair == if self.pinned(data).contains_key(key) {
                Some((key, self.pinned(data)[key]))
            } else {
                None
            },
    {
        let hasher = self.reader.extras(data);
        self.reader.get(data).get_key_value(hasher, key)
    }

    /// Narrows the guard to the value of `key`, or hands the guard back if
    /// the pinned table does not have the key.
    pub fn into_get(self, data: &TableData, key: u64) -> (result: Result<ReadGuard, Self>)
        ensures
            match result {
                Ok(guard) => {
                    &&& self.pinned(data).contains_key(key)
                    &&& guard.table_guard() == self
                    &&& guard.key() == key
                    &&& guard.value() == self.pinned(data)[key]
                },
                Err(guard) => !self.pinned(data).contains_key(key) && guard == self,
            },
    {
        match self.get(data, key) {
            Some(value) => Ok(ReadGuard { reader: self, key, value }),
            None => Err(self),
        }
    }

    /// Every pair of the pinned table, each once, in no particular order.
    pub fn iter(&self, data: &TableData) -> (pairs: Vec<(u64, u64)>)
        ensures
            pairs@.no_duplicates(),
            forall|key: u64, value: u64|
                pairs@.contains((key, value)) <==> self.pinned(data).contains_pair(key, value),
    {
        self.reader.get(data).iter()
    }

    /// Gives the guard back and returns the reader.
    pub fn release(self, data: &mut TableData) -> (reader: Reader)
        requires
            self.wf(old(data)),
        ensures
            reader.wf(final(data)),
            old(data).protocol().held(self.inner().parity()) > 0,
            final(data).protocol() == old(data).protocol().release(self.inner().parity()),
            final(data).same_values(old(data)),
            writer_frame(&old(data).strategy(), &final(data).strategy()),
    {
        Reader { reader: self.reader.release(data) }
    }
}

impl ReadGuard {
    /// The guard on the table.
    pub closed spec fn table_guard(&self) -> TableGuard {
        self.reader
    }

    /// The key whose value is pinned.
    pub closed spec fn key(&self) -> u64 {
        self.key
    }

    /// The pinned value.
    pub closed spec fn value(&self) -> u64 {
        self.value
    }

    /// The pinned value.
    pub fn get(&self) -> (value: u64)
        ensures
            value == self.value(),
    {
        self.value
    }

    /// Widens the guard to the whole table again.
    pub fn into_table(self) -> (guard: TableGuard)
        ensures
            guard == self.table_guard(),
    {
        self.reader
    }
}

} // verus!
