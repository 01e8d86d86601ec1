//! Payloads by zone.

use vstd::prelude::*;

use crate::types::{ZoneId, ZonePayload};

verus! {

/// A map from zone identifiers to payloads that keeps the order in which the
/// zones were first inserted.
#[derive(Clone, Debug)]
pub struct ZoneMap {
    items: Vec<(ZoneId, ZonePayload)>,
}

/// No zone occurs twice in a list of entries.
pub open spec fn unique(entries: Seq<(Seq<char>, ZonePayload)>) -> bool {
    forall|i: int, j: int|
        0 <= i < j < entries.len() ==> (#[trigger] entries[i]).0 != (#[trigger] entries[j]).0
}

/// Whether the zone `id` first occurs at position `i` of a list of entries.
pub open spec fn is_position(
    entries: Seq<(Seq<char>, ZonePayload)>,
    id: Seq<char>,
    i: int,
) -> bool {
    &&& 0 <= i < entries.len()
    &&& entries[i].0 == id
    &&& forall|j: int| 0 <= j < i ==> (#[trigger] entries[j]).0 != id
}

/// The position of the zone `id` in a list of entries.
pub open spec fn position_of(entries: Seq<(Seq<char>, ZonePayload)>, id: Seq<char>) -> Option<int> {
    if exists|i: int| is_position(entries, id, i) {
        Some(choose|i: int| is_position(entries, id, i))
    } else {
        None
    }
}

/// The payload of the zone `id` in a list of entries.
pub open spec fn lookup(entries: Seq<(Seq<char>, ZonePayload)>, id: Seq<char>) -> Option<
    ZonePayload,
> {
    match position_of(entries, id) {
        Some(i) => Some(entries[i].1),
        None => None,
    }
}

impl ZoneMap {
    /// The entries in the order in which their zones were first inserted.
    pub closed spec fn entries(&self) -> Seq<(Seq<char>, ZonePayload)> {
        Seq::new(self.items@.len(), |i: int| (self.items@[i].0@, self.items@[i].1))
    }

    /// No zone occurs twice.
    pub open spec fn well_formed(&self) -> bool {
        unique(self.entries())
    }

    /// The payload of the zone `id`.
    pub open spec fn payload(&self, id: Seq<char>) -> Option<ZonePayload> {
        lookup(self.entries(), id)
    }

    /// An empty map.
    pub fn new() -> (result: ZoneMap)
        ensures
            result.entries() == Seq::<(Seq<char>, ZonePayload)>::empty(),
            result.well_formed(),
    {
        ZoneMap { items: Vec::new() }
    }

    /// The number of zones.
    pub fn len(&self) -> (result: usize)
        ensures
            result == self.entries().len(),
    {
        self.items.len()
    }

    /// Whether there is no zone.
    pub fn is_empty(&self) -> (result: bool)
        ensures
            result == (self.entries().len() == 0),
    {
        self.items.len() == 0
    }

    /// Where the zone `id` stands, or the number of zones.
    fn find(&self, id: &ZoneId) -> (result: usize)
        ensures
            result <= self.items@.len(),
            position_of(self.entries(), id@) == if result < self.items@.len() {
                Some(result as int)
            } else {
                None::<int>
            },
    {
        let mut i: usize = 0;
        while i < self.items.len()
            invariant
                i <= self.items@.len(),
                forall|j: int| 0 <= j < i ==> (#[trigger] self.entries()[j]).0 != id@,
            decreases self.items@.len() - i,
        {
            if self.items[i].0.same_as(id) {
                assert(is_position(self.entries(), id@, i as int));
                return i;
            }
            i = i + 1;
        }
        i
    }

    /// The payload for a zone.
    pub fn get(&self, id: &ZoneId) -> (result: Option<&ZonePayload>)
        ensures
            match result {
                Some(payload) => self.payload(id@) == Some(*payload),
                None => self.payload(id@) is None,
            },
    {
        let i: usize = self.find(id);
        if i < self.items.len() {
            Some(&self.items[i].1)
        } else {
            None
        }
    }

    /// Whether there is a payload for a zone.
    pub fn contains_key(&self, id: &ZoneId) -> (result: bool)
        ensures
            result == (self.payload(id@) is Some),
    {
        self.find(id) < self.items.len()
    }

    /// The payload at a position, in the order of insertion.
    pub fn payload_at(&self, index: usize) -> (result: Option<&ZonePayload>)
        ensures
            result is Some == (index < self.entries().len()),
            result matches Some(payload) ==> *payload == self.entries()[index as int].1,
    {
        if index < self.items.len() {
            Some(&self.items[index].1)
        } else {
            None
        }
    }

    /// Sets the payload of a zone, replacing an earlier one.
    pub fn insert(&mut self, id: ZoneId, payload: ZonePayload)
        ensures
            old(self).well_formed() ==> final(self).well_formed(),
            final(self).entries() == inserted(old(self).entries(), id@, payload),
    {
        let i: usize = self.find(&id);
        let ghost before = self.entries();
        let ghost name = id@;
        if i < self.items.len() {
            self.items.set(i, (id, payload));
            assert(self.entries() =~= before.update(i as int, (name, payload)));
        } else {
            self.items.push((id, payload));
            assert(self.entries() =~= before.push((name, payload)));
        }
        proof {
            lemma_inserted_is_unique(before, name, payload);
        }
    }
}

/// What was set for a zone is what is found for it, and all other zones keep
/// what they had.
pub proof fn lemma_insert_then_lookup(
    entries: Seq<(Seq<char>, ZonePayload)>,
    id: Seq<char>,
    payload: ZonePayload,
    other: Seq<char>,
)
    ensures
        lookup(inserted(entries, id, payload), other) == if other == id {
            Some(payload)
        } else {
            lookup(entries, other)
        },
{
    let after = inserted(entries, id, payload);
    if position_of(entries, id) is Some {
        let i = position_of(entries, id)->0;
        assert(is_position(after, id, i));
    } else {
        lemma_absent(entries, id);
        assert(is_position(after, id, entries.len() as int));
    }
    lemma_absent(entries, other);
    lemma_absent(after, other);
    if other != id && position_of(entries, other) is Some {
        assert(is_position(after, other, position_of(entries, other)->0));
    }
}

/// A zone without a position has no entry.
proof fn lemma_absent(entries: Seq<(Seq<char>, ZonePayload)>, id: Seq<char>)
    ensures
        position_of(entries, id) is None ==> forall|i: int|
            0 <= i < entries.len() ==> (#[trigger] entries[i]).0 != id,
{
    if position_of(entries, id) is None {
        assert forall|i: int| 0 <= i < entries.len() implies (#[trigger] entries[i]).0 != id by {
            lemma_absent_before(entries, id, i + 1);
        }
    }
}

/// A zone without a position is not among the first `n` entries.
proof fn lemma_absent_before(entries: Seq<(Seq<char>, ZonePayload)>, id: Seq<char>, n: int)
    requires
        position_of(entries, id) is None,
        0 <= n <= entries.len(),
    ensures
        forall|i: int| 0 <= i < n ==> (#[trigger] entries[i]).0 != id,
    decreases n,
{
    if n > 0 {
        lemma_absent_before(entries, id, n - 1);
        assert(!is_position(entries, id, n - 1));
    }
}

/// Setting a payload adds no second entry for a zone.
proof fn lemma_inserted_is_unique(
    entries: Seq<(Seq<char>, ZonePayload)>,
    id: Seq<char>,
    payload: ZonePayload,
)
    ensures
        unique(entries) ==> unique(inserted(entries, id, payload)),
{
    lemma_absent(entries, id);
}

/// The entries after the payload of the zone `id` is set: its entry is
/// replaced where it stands, or a new one comes last.
pub open spec fn inserted(
    entries: Seq<(Seq<char>, ZonePayload)>,
    id: Seq<char>,
    payload: ZonePayload,
) -> Seq<(Seq<char>, ZonePayload)> {
    match position_of(entries, id) {
        Some(i) => entries.update(i, (id, payload)),
        None => entries.push((id, payload)),
    }
}

/// Setting the payload of a zone that has an entry replaces that entry where it
/// stands; setting that of another zone adds an entry at the end.
pub proof fn lemma_insertion_keeps_order(
    entries: Seq<(Seq<char>, ZonePayload)>,
    id: Seq<char>,
    payload: ZonePayload,
)
    requires
        unique(entries),
    ensures
        forall|i: int|
            0 <= i < entries.len() && (#[trigger] entries[i]).0 == id ==> inserted(
                entries,
                id,
                payload,
            ) == entries.update(i, (id, payload)),
        (forall|i: int| 0 <= i < entries.len() ==> (#[trigger] entries[i]).0 != id) ==> inserted(
            entries,
            id,
            payload,
        ) == entries.push((id, payload)),
{
    lemma_absent(entries, id);
    if position_of(entries, id) is Some {
        let i = position_of(entries, id)->0;
        assert(is_position(entries, id, i));
    }
}

/// What is found for a zone is the payload of its entry.
pub proof fn lemma_lookup_finds_the_entry(
    entries: Seq<(Seq<char>, ZonePayload)>,
    id: Seq<char>,
)
    requires
        unique(entries),
    ensures
        forall|i: int|
            0 <= i < entries.len() && (#[trigger] entries[i]).0 == id ==> lookup(entries, id)
                == Some(entries[i].1),
        (forall|i: int| 0 <= i < entries.len() ==> (#[trigger] entries[i]).0 != id) ==> lookup(
            entries,
            id,
        ) is None,
{
    lemma_absent(entries, id);
    if position_of(entries, id) is Some {
        let i = position_of(entries, id)->0;
        assert(is_position(entries, id, i));
    }
}

/// A list of entries is unique if any two different positions hold different
/// zones.
pub proof fn lemma_unique_entries(entries: Seq<(Seq<char>, ZonePayload)>, i: int, j: int)
    requires
        unique(entries),
        0 <= i < entries.len(),
        0 <= j < entries.len(),
        entries[i].0 == entries[j].0,
    ensures
        i == j,
{
}

} // verus!
