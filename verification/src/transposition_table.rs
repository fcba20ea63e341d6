//! The transposition table: a fixed number of slots, each holding at most
//! one search result, addressed by the Zobrist key modulo the number of slots.

use vstd::prelude::*;

verus! {

/// What a stored score tells of the true score of the position.
#[derive(Clone, Copy, Debug, PartialEq, Eq, Structural)]
pub enum TTBound {
    /// The score is exact.
    Exact,
    /// The true score is at most the stored one: no move improved alpha.
    Upper,
    /// The true score is at least the stored one: a move caused a beta cutoff.
    Lower,
}

#[derive(Clone, Copy, Debug, PartialEq, Eq, Structural)]
pub struct TTEntry {
    /// The Zobrist key of the position.
    pub key: u64,
    /// The depth the position was searched to.
    pub depth: u8,
    pub bound: TTBound,
    pub score: i16,
}

pub struct TranspositionTable {
    table: Vec<Option<TTEntry>>,
    size: usize,
}

/// The slot of a key in a table of `size` slots.
pub open spec fn slot(key: u64, size: nat) -> int {
    (key as usize) as int % (size as int)
}

/// The slots after storing `entry`: it takes the slot of its key when the
/// slot is empty or holds a result of a smaller depth.
pub open spec fn stored(slots: Seq<Option<TTEntry>>, entry: TTEntry) -> Seq<Option<TTEntry>> {
    let i = slot(entry.key, slots.len());
    match slots[i] {
        Some(e) => if entry.depth > e.depth {
            slots.update(i, Some(entry))
        } else {
            slots
        },
        None => slots.update(i, Some(entry)),
    }
}

/// The entry found for `key`: the one in its slot, if it has that very key.
pub open spec fn lookup(slots: Seq<Option<TTEntry>>, key: u64) -> Option<TTEntry> {
    match slots[slot(key, slots.len())] {
        Some(e) => if e.key == key {
            Some(e)
        } else {
            None
        },
        None => None,
    }
}

/// The number of entries that `size_mb` megabytes hold.
pub open spec fn entries_for(size_mb: nat) -> nat {
    let entry_size = vstd::layout::size_of::<TTEntry>();
    if entry_size == 0 {
        0
    } else {
        (size_mb * 1_000_000) / entry_size
    }
}

/// Every score in the table is above `i16::MIN`, so that each can be
/// negated.
pub open spec fn scores_ok(tt: Seq<Option<TTEntry>>) -> bool {
    forall|i: int| 0 <= i < tt.len() ==> (#[trigger] tt[i] matches Some(e) ==> e.score > i16::MIN)
}

impl View for TranspositionTable {
    type V = Seq<Option<TTEntry>>;

    closed spec fn view(&self) -> Seq<Option<TTEntry>> {
        self.table@
    }
}

impl TranspositionTable {
    /// The table keeps as many slots as its size says.
    pub closed spec fn inv(&self) -> bool {
        self.table@.len() == self.size
    }

    /// A table of `size_mb` megabytes (10^6 bytes), with every slot empty.
    pub fn new(size_mb: usize) -> (t: Self)
        requires
            size_mb * 1_000_000 <= usize::MAX,
        ensures
            t.inv(),
            t@.len() == entries_for(size_mb as nat),
            forall|i: int| 0 <= i < t@.len() ==> t@[i] is None,
    {
        let entry_size = core::mem::size_of::<TTEntry>();
        let size = if entry_size == 0 {
            0
        } else {
            (size_mb * 1_000_000) / entry_size
        };
        let table: Vec<Option<TTEntry>> = vec![None; size];
        let t = Self { table, size };
        assert forall|i: int| 0 <= i < t@.len() implies t@[i] is None by {
            assert(cloned::<Option<TTEntry>>(None, t@[i]));
        }
        t
    }

    /// The number of slots.
    pub fn len(&self) -> (r: usize)
        ensures
            r == self@.len(),
    {
        self.table.len()
    }

    /// Whether every score in the table is above `i16::MIN`.
    pub fn scores_are_ok(&self) -> (r: bool)
        ensures
            r == scores_ok(self@),
    {
        let mut i: usize = 0;
        while i < self.table.len()
            invariant
                i <= self@.len(),
                forall|j: int| 0 <= j < i ==> (#[trigger] self@[j] matches Some(e) ==> e.score > i16::MIN),
            decreases self@.len() - i,
        {
            match self.table[i] {
                Some(e) => {
                    if e.score == i16::MIN {
                        return false;
                    }
                },
                None => {},
            }
            i += 1;
        }
        true
    }

    /// Stores a search result; a result already in the slot stays unless
    /// the new one comes from a deeper search.
    pub fn store(&mut self, key: u64, depth: u8, bound: TTBound, score: i16)
        requires
            old(self).inv(),
            old(self)@.len() > 0,
        ensures
            final(self).inv(),
            final(self)@ == stored(old(self)@, TTEntry { key, depth, bound, score }),
    {
        let index = (key as usize) % self.size;
        let new_entry = Some(TTEntry { key, depth, bound, score });
        match &self.table[index] {
            Some(entry) => {
                if depth > entry.depth {
                    self.table.set(index, new_entry);
                }
            },
            None => self.table.set(index, new_entry),
        }
    }

    /// The result stored for `key`, if its slot holds one for that key.
    pub fn retrieve(&self, key: u64) -> (r: Option<TTEntry>)
        requires
            self.inv(),
            self@.len() > 0,
        ensures
            r == lookup(self@, key),
    {
        match self.table[(key as usize) % self.size] {
            Some(e) => if e.key == key {
                Some(e)
            } else {
                None
            },
            _ => None,
        }
    }
}

/// A result just stored is found again under its key, unless the slot held
/// a result of equal or greater depth.
pub proof fn law_store_then_retrieve(slots: Seq<Option<TTEntry>>, entry: TTEntry)
    requires
        slots.len() > 0,
        match slots[slot(entry.key, slots.len())] {
            Some(e) => entry.depth > e.depth,
            None => true,
        },
    ensures
        lookup(stored(slots, entry), entry.key) == Some(entry),
{
}

/// Storing never shrinks or grows the table, and only touches the slot of
/// the key stored.
pub proof fn law_store_touches_one_slot(slots: Seq<Option<TTEntry>>, entry: TTEntry, i: int)
    requires
        slots.len() > 0,
        0 <= i < slots.len(),
        i != slot(entry.key, slots.len()),
    ensures
        stored(slots, entry).len() == slots.len(),
        stored(slots, entry)[i] == slots[i],
{
}

/// A lookup only ever gives back an entry with the key asked for.
pub proof fn law_lookup_matches_key(slots: Seq<Option<TTEntry>>, key: u64)
    ensures
        lookup(slots, key) matches Some(e) ==> e.key == key,
{
}

} // verus!
