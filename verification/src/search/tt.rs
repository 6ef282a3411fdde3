//! The transposition table: a fixed array of entries, each found by its
//! hash modulo the length.
use vstd::prelude::*;
use crate::position::{Move, PieceType};

verus! {

/// How a stored score bounds the true one.
#[derive(Debug, Clone, Copy, PartialEq, Eq, Structural)]
pub enum TTEntryType {
    Exact,
    Upper,
    Lower,
}

/// One slot of the table. A slot whose depth is 0 is empty.
#[derive(Debug, Clone, Copy, PartialEq, Eq, Structural)]
pub struct TTEntry {
    pub hash: u64,
    pub eval: i32,
    pub best: Move,
    pub depth: u8,
    pub age: u16,
    pub ty: TTEntryType,
}

/// The bytes that one entry takes in memory.
pub const ENTRY_BYTES: usize = 24;

/// The size of the table, in megabytes, that a new engine starts with.
pub const DEFAULT_HASH_SIZE: usize = 16;

/// A table of `size` megabytes has at least one slot, and the machine can
/// count its bytes.
pub open spec fn fits_memory(size: usize) -> bool {
    1 <= size && size * 1000000 <= usize::MAX
}

impl TTEntry {
    /// The empty slot.
    pub open spec fn empty() -> TTEntry {
        TTEntry {
            hash: 0,
            eval: 0,
            best: Move::null(),
            depth: 0,
            age: 0,
            ty: TTEntryType::Exact,
        }
    }

    /// An entry from its parts.
    pub fn new(hash: u64, eval: i32, best: Move, depth: u8, age: u16, ty: TTEntryType) -> (entry: TTEntry)
        ensures
            entry == (TTEntry { hash, eval, best, depth, age, ty }),
    {
        TTEntry { hash, eval, best, depth, age, ty }
    }
}

impl Default for TTEntry {
    fn default() -> (entry: TTEntry)
        ensures
            entry == TTEntry::empty(),
    {
        TTEntry {
            hash: 0,
            eval: 0,
            best: Move { from: 0, to: 0, flags: 0, piece: PieceType::Pawn },
            depth: 0,
            age: 0,
            ty: TTEntryType::Exact,
        }
    }
}

/// What an entry is worth when it competes for a slot: its age plus a third
/// of its depth.
pub open spec fn score_spec(age: u16, depth: u8) -> int {
    age + depth / 3
}

/// What an entry is worth when it competes for a slot.
pub fn score(age: u16, depth: u8) -> (s: u32)
    ensures
        s == score_spec(age, depth),
{
    age as u32 + depth as u32 / 3
}

/// The number of entries that fit into `size` megabytes.
pub open spec fn tt_size_spec(size: usize) -> int {
    size * 1000000 / 24
}

/// The number of entries that fit into `size` megabytes.
pub fn tt_size(size: usize) -> (n: usize)
    requires
        fits_memory(size),
    ensures
        n == tt_size_spec(size),
        n > 0,
{
    size * 1000000 / ENTRY_BYTES
}

/// The transposition table.
pub struct TT {
    /// The slots.
    pub entries: Vec<TTEntry>,
    /// How many times an empty slot was taken since the table was last
    /// cleared, as far as the machine counts.
    pub used: usize,
    /// The size in megabytes that the table was made with.
    pub megabytes: usize,
}

impl TT {
    /// The table has a slot.
    pub open spec fn wf(self) -> bool {
        self.entries.len() > 0
    }

    /// The slot that answers for `hash`.
    pub open spec fn slot(self, hash: u64) -> int {
        (hash as usize) as int % self.entries.len() as int
    }

    /// Whether `entry` takes its slot: it does unless what the slot holds is
    /// worth more.
    pub open spec fn replaces(self, entry: TTEntry) -> bool {
        let old = self.entries[self.slot(entry.hash)];
        score_spec(old.age, old.depth) <= score_spec(entry.age, entry.depth)
    }

    /// The slots after `entry` has been offered.
    pub open spec fn inserted(self, entry: TTEntry) -> Seq<TTEntry> {
        if self.replaces(entry) {
            self.entries@.update(self.slot(entry.hash), entry)
        } else {
            self.entries@
        }
    }

    /// What the slots `entries` answer to a lookup of `hash`: the stored move,
    /// score, depth and bound, if the slot for `hash` holds that very hash
    /// and is not empty.
    pub open spec fn found(entries: Seq<TTEntry>, hash: u64) -> Option<(Move, i32, u8, TTEntryType)> {
        let e = entries[(hash as usize) as int % entries.len() as int];
        if e.hash == hash && e.depth > 0 {
            Some((e.best, e.eval, e.depth, e.ty))
        } else {
            None
        }
    }

    /// A table of `size` megabytes, all slots empty.
    pub fn new(size: usize) -> (tt: TT)
        requires
            fits_memory(size),
        ensures
            tt.wf(),
            tt.entries.len() == tt_size_spec(size),
            forall|i: int| 0 <= i < tt.entries.len() ==> tt.entries[i] == TTEntry::empty(),
            tt.used == 0,
            tt.megabytes == size,
    {
        TT { entries: empty_entries(tt_size(size)), used: 0, megabytes: size }
    }

    /// A table of the default size.
    pub fn new_default() -> (tt: TT)
        ensures
            fits_memory(DEFAULT_HASH_SIZE),
            tt.wf(),
            tt.entries.len() == tt_size_spec(DEFAULT_HASH_SIZE),
            forall|i: int| 0 <= i < tt.entries.len() ==> tt.entries[i] == TTEntry::empty(),
            tt.used == 0,
            tt.megabytes == DEFAULT_HASH_SIZE,
    {
        TT::new(DEFAULT_HASH_SIZE)
    }

    /// Gives the table `size` megabytes; what it held is lost.
    pub fn set_size(&mut self, size: usize)
        requires
            fits_memory(size),
        ensures
            final(self).wf(),
            final(self).entries.len() == tt_size_spec(size),
            forall|i: int| 0 <= i < final(self).entries.len() ==> final(self).entries[i] == TTEntry::empty(),
            final(self).used == 0,
            final(self).megabytes == size,
    {
        self.entries = empty_entries(tt_size(size));
        self.used = 0;
        self.megabytes = size;
    }

    /// The size in megabytes that the table was made with.
    pub fn size(&self) -> (size: usize)
        ensures
            size == self.megabytes,
    {
        self.megabytes
    }

    /// Empties every slot and resets the count of used slots.
    pub fn clear(&mut self)
        requires
            old(self).wf(),
        ensures
            final(self).wf(),
            final(self).entries.len() == old(self).entries.len(),
            forall|i: int| 0 <= i < final(self).entries.len() ==> final(self).entries[i] == TTEntry::empty(),
            final(self).used == 0,
            final(self).megabytes == old(self).megabytes,
    {
        let n: usize = self.entries.len();
        let mut i: usize = 0;
        while i < n
            invariant
                i <= n,
                self.entries.len() == n,
                self.used == old(self).used,
                self.megabytes == old(self).megabytes,
                forall|j: int| 0 <= j < i ==> self.entries[j] == TTEntry::empty(),
            decreases n - i,
        {
            self.entries[i] = TTEntry::default();
            i = i + 1;
        }
        self.used = 0;
    }

    /// The used slots per thousand, as far as the machine counts.
    pub fn hashfull(&self) -> (permille: usize)
        requires
            self.wf(),
        ensures
            permille == if self.used * 1000 / self.entries.len() as int > usize::MAX {
                usize::MAX as int
            } else {
                self.used * 1000 / self.entries.len() as int
            },
            self.used <= self.entries.len() ==> permille <= 1000,
    {
        let n: usize = self.entries.len();
        let permille: u128 = (self.used as u128 * 1000) / (n as u128);
        assert(self.used <= n ==> permille <= 1000) by (nonlinear_arith)
            requires
                permille == (self.used as int * 1000) / (n as int),
                n > 0,
        ;
        if permille > usize::MAX as u128 {
            usize::MAX
        } else {
            permille as usize
        }
    }

    /// Offers `index` to the slot of its hash. It takes the slot unless what
    /// the slot holds is worth more; each time a slot that counts as empty is
    /// taken, the count of used slots grows by one, as far as the machine
    /// counts.
    pub fn insert(&mut self, index: TTEntry)
        requires
            old(self).wf(),
        ensures
            final(self).wf(),
            final(self).entries@ == old(self).inserted(index),
            final(self).megabytes == old(self).megabytes,
            final(self).used == if old(self).replaces(index) && old(self).entries[old(self).slot(
                index.hash,
            )].depth == 0 && old(self).used < usize::MAX {
                old(self).used + 1
            } else {
                old(self).used as int
            },
    {
        let i: usize = index.hash as usize % self.entries.len();
        let old_index: TTEntry = self.entries[i];
        if score(old_index.age, old_index.depth) <= score(index.age, index.depth) {
            if old_index.depth == 0 && self.used < usize::MAX {
                self.used = self.used + 1;
            }
            self.entries[i] = index;
        }
    }

    /// Looks `hash` up.
    pub fn lookup(&self, hash: u64) -> (result: Option<(Move, i32, u8, TTEntryType)>)
        requires
            self.wf(),
        ensures
            result == TT::found(self.entries@, hash),
    {
        let i: usize = hash as usize % self.entries.len();
        let index: TTEntry = self.entries[i];
        if index.hash == hash && index.depth > 0 {
            Some((index.best, index.eval, index.depth, index.ty))
        } else {
            None
        }
    }
}

/// `n` empty slots.
fn empty_entries(n: usize) -> (entries: Vec<TTEntry>)
    ensures
        entries.len() == n,
        forall|i: int| 0 <= i < n ==> entries[i] == TTEntry::empty(),
{
    let mut entries: Vec<TTEntry> = Vec::with_capacity(n);
    let mut i: usize = 0;
    while i < n
        invariant
            i <= n,
            entries.len() == i,
            forall|j: int| 0 <= j < i ==> entries[j] == TTEntry::empty(),
        decreases n - i,
    {
        entries.push(TTEntry::default());
        i = i + 1;
    }
    entries
}

/// An entry that takes its slot is found again under its hash, with its
/// move, score, depth and bound, as long as it is not an empty one.
pub proof fn lemma_insert_then_lookup(tt: TT, entry: TTEntry)
    requires
        tt.wf(),
        tt.replaces(entry),
        entry.depth > 0,
    ensures
        TT::found(tt.inserted(entry), entry.hash) == Some(
            (entry.best, entry.eval, entry.depth, entry.ty),
        ),
{
}

/// An entry that finds its slot held by one that is worth more changes nothing.
pub proof fn lemma_insert_refused(tt: TT, entry: TTEntry, hash: u64)
    requires
        tt.wf(),
        !tt.replaces(entry),
    ensures
        TT::found(tt.inserted(entry), hash) == TT::found(tt.entries@, hash),
{
}

/// An insert leaves the answer for every hash of another slot as it was.
pub proof fn lemma_insert_elsewhere(tt: TT, entry: TTEntry, hash: u64)
    requires
        tt.wf(),
        tt.slot(hash) != tt.slot(entry.hash),
    ensures
        TT::found(tt.inserted(entry), hash) == TT::found(tt.entries@, hash),
{
}

} // verus!
