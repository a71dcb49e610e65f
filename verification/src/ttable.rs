//! The transposition table: a fixed-capacity open-addressed array of packed
//! entries, keyed by a multiplicative mapping of the position hash and
//! validated against a 16-bit fingerprint.
//!
//! A probe never returns an entry whose stored fingerprint differs from the
//! probing key's low 16 bits; that stands in [`TTable::probe`]'s contract.

use vstd::prelude::*;
use crate::ataxx_move::{packed_is_wf, spec_pack, AtaxxMove, PackedMove};
use crate::square::{Score, MAX_DEPTH, SCORE_INF};

verus! {

/// How trustworthy a stored score is: unused slot, exact value, upper bound
/// (fail-low) or lower bound (fail-high).
#[derive(Debug, Copy, Clone, PartialEq, Eq, Structural)]
pub enum TtEntryFlag {
    Empty,
    Exact,
    Alpha,
    Beta,
}

/// One packed table record.
#[derive(Debug, Copy, Clone, PartialEq, Eq, Structural)]
pub struct TtEntry {
    pub key: u16,
    pub m: PackedMove,
    pub score: i16,
    pub depth: u8,
    pub flag: TtEntryFlag,
}

impl TtEntry {
    /// The stored move names real squares and the stored score is a real
    /// (non-sentinel) score.
    pub open spec fn wf(self) -> bool {
        &&& packed_is_wf(self.m.value)
        &&& -SCORE_INF < self.score < SCORE_INF
    }

    /// An unused slot.
    pub fn empty() -> (r: TtEntry)
        ensures
            r.flag == TtEntryFlag::Empty,
            r.wf(),
            r.key == 0,
            r.m.value == 0,
            r.score == 0,
            r.depth == 0,
    {
        proof {
            crate::ataxx_move::lemma_pack_unpack_round_trip(AtaxxMove::NoMove);
        }
        TtEntry {
            key: 0,
            m: PackedMove::none(),
            score: 0,
            depth: 0,
            flag: TtEntryFlag::Empty,
        }
    }
}

/// The slot a key maps to: the high 64 bits of the 128-bit product of the
/// key and the table length.
pub open spec fn spec_tt_index(key: u64, len: nat) -> int {
    (key * len) / 0x1_0000_0000_0000_0000
}

/// The low 16 bits of a key, stored as its fingerprint.
pub open spec fn spec_tt_fingerprint(key: u64) -> u16 {
    (key & 0xFFFF) as u16
}

/// The multiplicative slot mapping stays in bounds.
proof fn lemma_tt_index_in_bounds(key: u64, len: nat)
    requires
        len > 0,
        len <= 0xFFFF_FFFF_FFFF_FFFF,
    ensures
        0 <= spec_tt_index(key, len) < len,
{
    assert(key * len >= 0) by (nonlinear_arith)
        requires
            key >= 0,
            len > 0,
    ;
    assert(key * len < 0x1_0000_0000_0000_0000 * len) by (nonlinear_arith)
        requires
            key < 0x1_0000_0000_0000_0000,
            len > 0,
    ;
    vstd::arithmetic::div_mod::lemma_multiply_divide_lt(
        key * len as int,
        0x1_0000_0000_0000_0000,
        len as int,
    );
    vstd::arithmetic::div_mod::lemma_div_is_ordered(0, key * len as int, 0x1_0000_0000_0000_0000);
}

/// Bytes each stored entry accounts for when sizing the table.
pub const TT_ENTRY_BYTES: usize = 8;

/// A fixed-capacity table of packed entries; every slot always holds a
/// well-formed record.
pub struct TTable {
    table: Vec<TtEntry>,
}

/// Default table size in megabytes.
pub const TT_DEFAULT_SIZE_MB: usize = 64;

/// Smallest accepted table size in megabytes.
pub const TT_MIN_SIZE_MB: usize = 1;

/// Largest accepted table size in megabytes.
pub const TT_MAX_SIZE_MB: usize = 131072;

impl TTable {
    pub closed spec fn spec_entries(&self) -> Seq<TtEntry> {
        self.table@
    }

    pub open spec fn wf(&self) -> bool {
        &&& self.spec_entries().len() >= 1
        &&& self.spec_entries().len() <= 0xFFFF_FFFF_FFFF_FFFF
        &&& forall|i: int|
            0 <= i < self.spec_entries().len() ==> (#[trigger] self.spec_entries()[i]).wf()
    }

    /// A table of the default size, all slots empty.
    pub fn new() -> (r: TTable)
        ensures
            r.wf(),
            r.spec_entries().len() == TT_DEFAULT_SIZE_MB * 1024 * 1024 / TT_ENTRY_BYTES as int,
            forall|i: int|
                0 <= i < r.spec_entries().len() ==> (#[trigger] r.spec_entries()[i]).flag
                    == TtEntryFlag::Empty,
    {
        let mut result = TTable { table: Vec::new() };
        result.resize(TT_DEFAULT_SIZE_MB);
        result
    }

    /// Reallocates to fit `capacity` megabytes of entries; all slots empty.
    pub fn resize(&mut self, capacity: usize)
        requires
            TT_MIN_SIZE_MB <= capacity <= TT_MAX_SIZE_MB,
            capacity * 1024 * 1024 / TT_ENTRY_BYTES as int <= usize::MAX,
        ensures
            final(self).wf(),
            final(self).spec_entries().len() == capacity * 1024 * 1024 / TT_ENTRY_BYTES as int,
            forall|i: int|
                0 <= i < final(self).spec_entries().len() ==> (#[trigger] final(self).spec_entries()[i]).flag == TtEntryFlag::Empty,
    {
        let n = (((capacity as u64) * 1024 * 1024) / (TT_ENTRY_BYTES as u64)) as usize;
        self.table = Vec::new();
        let mut i: usize = 0;
        while i < n
            invariant
                0 <= i <= n,
                self.table@.len() == i,
                forall|j: int|
                    0 <= j < i ==> (#[trigger] self.table@[j]).flag == TtEntryFlag::Empty
                        && self.table@[j].wf(),
            decreases n - i,
        {
            self.table.push(TtEntry::empty());
            i = i + 1;
        }
    }

    /// Resets every slot to empty without reallocating.
    pub fn clear(&mut self)
        requires
            old(self).wf(),
        ensures
            final(self).wf(),
            final(self).spec_entries().len() == old(self).spec_entries().len(),
            forall|i: int|
                0 <= i < final(self).spec_entries().len() ==> (#[trigger] final(self).spec_entries()[i]).flag == TtEntryFlag::Empty,
    {
        let n = self.table.len();
        let mut i: usize = 0;
        while i < n
            invariant
                0 <= i <= n,
                self.table@.len() == n,
                forall|j: int|
                    0 <= j < i ==> (#[trigger] self.table@[j]).flag == TtEntryFlag::Empty
                        && self.table@[j].wf(),
                forall|j: int| i <= j < n ==> (#[trigger] self.table@[j]).wf(),
            decreases n - i,
        {
            self.table[i] = TtEntry::empty();
            i = i + 1;
        }
    }

    /// The slot `key` maps to.
    fn index(&self, key: u64) -> (r: usize)
        requires
            self.wf(),
        ensures
            r == spec_tt_index(key, self.spec_entries().len() as nat),
            r < self.spec_entries().len(),
    {
        proof {
            lemma_tt_index_in_bounds(key, self.spec_entries().len() as nat);
            let k = key as int;
            let l = self.table@.len() as int;
            assert(k * l <= 0xFFFF_FFFF_FFFF_FFFF * l && 0xFFFF_FFFF_FFFF_FFFF * l
                <= 0xFFFF_FFFF_FFFF_FFFF * 0xFFFF_FFFF_FFFF_FFFF) by (nonlinear_arith)
                requires
                    0 <= k <= 0xFFFF_FFFF_FFFF_FFFF,
                    0 <= l <= 0xFFFF_FFFF_FFFF_FFFF,
            ;
            let m = ((key as u128) * (self.table@.len() as u128)) as u128;
            vstd::bits::lemma_u128_shr_is_div(m, 64);
            vstd::arithmetic::power2::lemma2_to64();
            vstd::arithmetic::power2::lemma2_to64_rest();
        }
        let m: u128 = (key as u128) * (self.table.len() as u128);
        (m >> 64) as usize
    }

    /// The stored fingerprint of a key.
    pub fn pack_key(key: u64) -> (r: u16)
        ensures
            r == spec_tt_fingerprint(key),
    {
        proof {
            assert(key & 0xFFFF < 0x1_0000) by (bit_vector);
        }
        (key & 0xFFFF) as u16
    }

    /// Looks up `key`'s slot. An entry comes back only when the slot is in
    /// use and its stored fingerprint equals the probing key's low 16 bits —
    /// never otherwise, even under slot collisions.
    pub fn probe(&self, key: u64) -> (r: Option<TtEntry>)
        requires
            self.wf(),
        ensures
            ({
                let e = self.spec_entries()[spec_tt_index(
                    key,
                    self.spec_entries().len() as nat,
                )];
                match r {
                    Some(found) => found == e && found.flag != TtEntryFlag::Empty && found.key
                        == spec_tt_fingerprint(key) && found.wf(),
                    None => e.flag == TtEntryFlag::Empty || e.key != spec_tt_fingerprint(key),
                }
            }),
    {
        let idx = self.index(key);
        let entry = self.table[idx];
        if matches!(entry.flag, TtEntryFlag::Empty) || entry.key != TTable::pack_key(key) {
            None
        } else {
            Some(entry)
        }
    }

    /// Unconditionally overwrites `key`'s slot with the new record.
    pub fn store(&mut self, key: u64, m: AtaxxMove, score: Score, depth: i32, flag: TtEntryFlag)
        requires
            old(self).wf(),
            m.is_wf(),
            -SCORE_INF < score < SCORE_INF,
            0 <= depth <= MAX_DEPTH,
        ensures
            final(self).wf(),
            final(self).spec_entries() == old(self).spec_entries().update(
                spec_tt_index(key, old(self).spec_entries().len() as nat),
                (TtEntry {
                    key: spec_tt_fingerprint(key),
                    m: (PackedMove { value: spec_pack(m) }),
                    score: score as i16,
                    depth: depth as u8,
                    flag,
                }),
            ),
    {
        proof {
            crate::ataxx_move::lemma_pack_unpack_round_trip(m);
        }
        let idx = self.index(key);
        self.table[idx] = TtEntry {
            key: TTable::pack_key(key),
            m: m.pack(),
            score: score as i16,
            depth: depth as u8,
            flag,
        };
    }
}

} // verus!
