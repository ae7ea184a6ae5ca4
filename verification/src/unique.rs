//! Dual-mode 128-bit identifiers.
//!
//! A [`UniqueId`] is either *unindexed* (a pure-entropy token whose low
//! 32 bits are zero) or *indexed* (the same entropy combined with a 32-bit
//! slot index). Collision safety rests on roughly 92 bits of entropy, which
//! is safe for single-process use but not cryptographically unique across
//! machines.

use rand::Rng;
use vstd::prelude::*;

verus! {

/// Set on the internal word when the identifier carries a slot index.
pub const INDEXED_FLAG: u128 = 0x8000_0000_0000_0000_0000_0000_0000_0000;

/// The bits of the magnitude that hold entropy (bits 32..127).
pub const ENTROPY_MASK: u128 = 0x7FFF_FFFF_FFFF_FFFF_FFFF_FFFF_0000_0000;

/// The bits of the magnitude that hold the slot index (bits 0..32).
pub const INDEX_MASK: u128 = 0xFFFF_FFFF;

/// A 128-bit identifier: sign/flag bit, 95 bits of entropy, 32 index bits.
///
/// The signed value of an identifier is non-negative exactly when it is
/// unindexed; an indexed identifier's value is the negated magnitude, whose
/// low 32 bits hold the slot index and whose remaining bits hold the entropy
/// that was generated for it.
#[derive(Clone, Copy, Debug, PartialEq, Eq, Structural, PartialOrd, Ord, Hash)]
pub struct UniqueId {
    bits: u128,
}

impl UniqueId {
    /// The raw internal word: flag bit plus magnitude.
    pub closed spec fn bits_spec(self) -> u128 {
        self.bits
    }

    /// An identifier carries a slot index exactly when its flag bit is set,
    /// that is, when its signed value is negative.
    pub open spec fn is_indexed(self) -> bool {
        self.bits_spec() & INDEXED_FLAG == INDEXED_FLAG
    }

    /// The magnitude of the signed value: the word without the flag bit.
    pub open spec fn mag_bits(self) -> u128 {
        self.bits_spec() & (ENTROPY_MASK | INDEX_MASK)
    }

    /// The entropy part of the magnitude (bits 32..127).
    pub open spec fn entropy(self) -> u128 {
        self.mag_bits() & ENTROPY_MASK
    }

    /// The low 32 bits of the magnitude: the slot index, when one is set.
    pub open spec fn index_bits(self) -> u128 {
        self.mag_bits() & INDEX_MASK
    }

    /// The slot index, defined only for the indexed variant.
    pub open spec fn spec_index(self) -> Option<u32> {
        if self.is_indexed() {
            Some(self.index_bits() as u32)
        } else {
            None
        }
    }

    /// The identifier as a signed mathematical value: indexed identifiers
    /// are negative, unindexed ones non-negative.
    pub open spec fn raw(self) -> int {
        if self.is_indexed() {
            -(self.mag_bits() as int)
        } else {
            self.mag_bits() as int
        }
    }

    /// Well-formed identifiers carry nonzero entropy, and an unindexed
    /// identifier's low 32 bits are zero (reserved for future indexing).
    pub open spec fn wf(self) -> bool {
        &&& self.entropy() != 0
        &&& !self.is_indexed() ==> self.index_bits() == 0
    }

    /// The identifier obtained by stamping `index` into the low 32 bits
    /// while keeping the entropy.
    pub closed spec fn with_index(self, index: u32) -> UniqueId {
        UniqueId { bits: INDEXED_FLAG | self.entropy() | (index as u128) }
    }

    /// The identifier with the given flag and magnitude.
    pub closed spec fn from_parts(indexed: bool, mag: u128) -> UniqueId {
        UniqueId { bits: if indexed { INDEXED_FLAG | mag } else { mag } }
    }

    /// The result of re-indexing: `None` signals that the identifier already
    /// carries exactly that index.
    pub open spec fn reindexed(self, index: u32) -> Option<UniqueId> {
        if self.spec_index() == Some(index) {
            None
        } else {
            Some(self.with_index(index))
        }
    }
}

/// Relies on `rand::Rng::gen_range` over the constant, non-empty range
/// `0..i128::MAX`: returns a uniformly distributed value within that
/// half-open range.
#[verifier::external_body]
fn random_seed() -> (r: i128)
    ensures
        0 <= r < i128::MAX,
{
    rand::thread_rng().gen_range(0..i128::MAX)
}

/// Draws fresh entropy: nonzero, confined to the entropy bits. The one
/// seed whose masked entropy would be zero is replaced by the smallest
/// entropy value, so that every generated identifier has nonzero entropy.
fn generate_entropy() -> (e: u128)
    ensures
        e & ENTROPY_MASK == e,
        e & INDEX_MASK == 0,
        e & INDEXED_FLAG == 0,
        e != 0,
{
    let seed = random_seed();
    let word: u128 = seed as u128;
    let masked: u128 = word & ENTROPY_MASK;
    let e: u128 = if masked == 0 {
        0x1_0000_0000u128
    } else {
        masked
    };
    proof {
        assert((word & 0x7FFF_FFFF_FFFF_FFFF_FFFF_FFFF_0000_0000u128)
            & 0x7FFF_FFFF_FFFF_FFFF_FFFF_FFFF_0000_0000u128 == (word
            & 0x7FFF_FFFF_FFFF_FFFF_FFFF_FFFF_0000_0000u128)) by (bit_vector);
        assert((word & 0x7FFF_FFFF_FFFF_FFFF_FFFF_FFFF_0000_0000u128) & 0xFFFF_FFFFu128 == 0)
            by (bit_vector);
        assert((word & 0x7FFF_FFFF_FFFF_FFFF_FFFF_FFFF_0000_0000u128)
            & 0x8000_0000_0000_0000_0000_0000_0000_0000u128 == 0) by (bit_vector);
        assert(0x1_0000_0000u128 & 0x7FFF_FFFF_FFFF_FFFF_FFFF_FFFF_0000_0000u128
            == 0x1_0000_0000u128) by (bit_vector);
        assert(0x1_0000_0000u128 & 0xFFFF_FFFFu128 == 0) by (bit_vector);
        assert(0x1_0000_0000u128 & 0x8000_0000_0000_0000_0000_0000_0000_0000u128 == 0)
            by (bit_vector);
    }
    e
}

impl UniqueId {
    /// A randomly generated, unindexed identifier: non-negative, with the
    /// low 32 bits forced to zero. With ~92 effective bits of entropy the
    /// collision probability is safe for single-process use, but these are
    /// not cryptographically unique across machines.
    pub fn get() -> (r: UniqueId)
        ensures
            r.wf(),
            !r.is_indexed(),
            r.raw() >= 0,
            r.index_bits() == 0,
            r.entropy() != 0,
    {
        let e = generate_entropy();
        let r = UniqueId { bits: e };
        proof {
            lemma_unindexed_parts(e);
        }
        r
    }

    /// A randomly generated identifier carrying `index` in its low 32 bits:
    /// negative, combining fresh entropy with the slot index.
    pub fn get_with_index(index: usize) -> (r: UniqueId)
        requires
            index < 0x1_0000_0000,
        ensures
            r.wf(),
            r.is_indexed(),
            r.raw() < 0,
            r.spec_index() == Some(index as u32),
            r.entropy() != 0,
    {
        let e = generate_entropy();
        let bits: u128 = INDEXED_FLAG | e | (index as u128);
        let r = UniqueId { bits };
        proof {
            lemma_indexed_parts(e, index as u128);
            assert(index as u128 <= 0xFFFF_FFFFu128);
            assert((index as u128) as u32 == index as u32);
        }
        r
    }

    /// A copy of the identifier with `index` stamped into the low 32 bits,
    /// or `None` if the identifier already carries exactly that index.
    /// The entropy part is kept unchanged either way.
    pub fn set_index(&self, index: usize) -> (r: Option<UniqueId>)
        requires
            self.wf(),
            index < 0x1_0000_0000,
        ensures
            r == self.reindexed(index as u32),
            r is None <==> self.spec_index() == Some(index as u32),
            r matches Some(v) ==> {
                &&& v.wf()
                &&& v.is_indexed()
                &&& v.entropy() == self.entropy()
                &&& v.spec_index() == Some(index as u32)
            },
    {
        let idx: u128 = index as u128;
        let flagged = self.is_indexed_part();
        let cur = self.index_part();
        proof {
            assert(idx as u32 == index as u32);
            lemma_index_collapse(self.bits_spec());
        }
        if flagged && cur == index as u32 {
            proof {
                assert(self.index_bits() as u32 == cur ==> (self.index_bits() <= 0xFFFF_FFFFu128
                    ==> self.index_bits() == cur as u128));
            }
            None
        } else {
            let e = self.entropy_part();
            let bits: u128 = INDEXED_FLAG | e | idx;
            let v = UniqueId { bits };
            proof {
                lemma_entropy_confined(self.bits);
                lemma_indexed_parts(e, idx);
                if flagged {
                    assert(self.index_bits() <= 0xFFFF_FFFFu128);
                    assert(self.index_bits() as u32 != index as u32);
                    assert(self.index_bits() != idx);
                }
            }
            Some(v)
        }
    }

    /// The slot index, `Some` only for the indexed variant.
    pub fn index(&self) -> (r: Option<usize>)
        ensures
            self.is_indexed() ==> r == Some(self.index_bits() as usize),
            !self.is_indexed() ==> r is None,
            r is Some <==> self.spec_index() is Some,
            r matches Some(i) ==> self.spec_index() == Some(i as u32) && i < 0x1_0000_0000,
    {
        if self.is_indexed_part() {
            let i = self.index_part();
            proof {
                assert(self.index_bits() <= 0xFFFF_FFFFu128);
                assert(self.index_bits() as usize as u32 == self.index_bits() as u32);
            }
            Some(i as usize)
        } else {
            None
        }
    }

    /// Rebuilds an identifier from its flag and magnitude, as the document
    /// parser reads them back.
    pub(crate) fn from_parts_exec(indexed: bool, mag: u128) -> (r: UniqueId)
        requires
            mag <= 0x7FFF_FFFF_FFFF_FFFF_FFFF_FFFF_FFFF_FFFFu128,
        ensures
            r == UniqueId::from_parts(indexed, mag),
            r.is_indexed() == indexed,
            r.mag_bits() == mag,
    {
        let bits: u128 = if indexed {
            INDEXED_FLAG | mag
        } else {
            mag
        };
        proof {
            lemma_from_parts(mag);
        }
        UniqueId { bits }
    }

    /// Whether the identifier carries a slot index.
    pub fn indexed(&self) -> (r: bool)
        ensures
            r == self.is_indexed(),
    {
        self.is_indexed_part()
    }

    /// Whether the flag bit is set.
    pub(crate) fn is_indexed_part(&self) -> (r: bool)
        ensures
            r == self.is_indexed(),
    {
        self.bits & INDEXED_FLAG == INDEXED_FLAG
    }

    /// The magnitude of the identifier's signed value: entropy and index
    /// bits together, without the flag bit.
    pub fn magnitude(&self) -> (m: u128)
        ensures
            m == self.mag_bits(),
    {
        self.mag_part()
    }

    /// The magnitude of the word: everything below the flag bit.
    pub(crate) fn mag_part(&self) -> (m: u128)
        ensures
            m == self.mag_bits(),
    {
        self.bits & (ENTROPY_MASK | INDEX_MASK)
    }

    /// The entropy part of the word.
    fn entropy_part(&self) -> (e: u128)
        ensures
            e == self.entropy(),
    {
        proof {
            lemma_entropy_collapse(self.bits);
        }
        self.bits & ENTROPY_MASK
    }

    /// The low 32 bits of the word.
    fn index_part(&self) -> (i: u32)
        ensures
            i == self.index_bits() as u32,
            i as u128 == self.index_bits(),
    {
        proof {
            lemma_index_collapse(self.bits);
        }
        (self.bits & INDEX_MASK) as u32
    }
}

/// For a word confined to the entropy bits, the derived parts of an
/// identifier built from it directly.
proof fn lemma_unindexed_parts(e: u128)
    by (bit_vector)
    requires
        e & 0x7FFF_FFFF_FFFF_FFFF_FFFF_FFFF_0000_0000u128 == e,
    ensures
        e & 0x8000_0000_0000_0000_0000_0000_0000_0000u128 == 0,
        (e & (0x7FFF_FFFF_FFFF_FFFF_FFFF_FFFF_0000_0000u128 | 0xFFFF_FFFFu128)) == e,
        (e & (0x7FFF_FFFF_FFFF_FFFF_FFFF_FFFF_0000_0000u128 | 0xFFFF_FFFFu128))
            & 0x7FFF_FFFF_FFFF_FFFF_FFFF_FFFF_0000_0000u128 == e,
        (e & (0x7FFF_FFFF_FFFF_FFFF_FFFF_FFFF_0000_0000u128 | 0xFFFF_FFFFu128))
            & 0xFFFF_FFFFu128 == 0,
{
}

/// The parts of a word assembled from the flag, entropy `e` and an index
/// `idx` that fits in 32 bits.
proof fn lemma_indexed_parts(e: u128, idx: u128)
    by (bit_vector)
    requires
        e & 0x7FFF_FFFF_FFFF_FFFF_FFFF_FFFF_0000_0000u128 == e,
        e != 0,
        idx <= 0xFFFF_FFFFu128,
    ensures
        ({
            let bits = 0x8000_0000_0000_0000_0000_0000_0000_0000u128 | e | idx;
            &&& bits & 0x8000_0000_0000_0000_0000_0000_0000_0000u128
                == 0x8000_0000_0000_0000_0000_0000_0000_0000u128
            &&& (bits & (0x7FFF_FFFF_FFFF_FFFF_FFFF_FFFF_0000_0000u128 | 0xFFFF_FFFFu128))
                & 0x7FFF_FFFF_FFFF_FFFF_FFFF_FFFF_0000_0000u128 == e
            &&& (bits & (0x7FFF_FFFF_FFFF_FFFF_FFFF_FFFF_0000_0000u128 | 0xFFFF_FFFFu128))
                & 0xFFFF_FFFFu128 == idx
            &&& bits & (0x7FFF_FFFF_FFFF_FFFF_FFFF_FFFF_0000_0000u128 | 0xFFFF_FFFFu128) != 0
        }),
{
}

/// Masking with the magnitude bits and then the entropy bits collapses to
/// masking with the entropy bits alone.
proof fn lemma_entropy_collapse(bits: u128)
    by (bit_vector)
    ensures
        (bits & (0x7FFF_FFFF_FFFF_FFFF_FFFF_FFFF_0000_0000u128 | 0xFFFF_FFFFu128))
            & 0x7FFF_FFFF_FFFF_FFFF_FFFF_FFFF_0000_0000u128 == bits
            & 0x7FFF_FFFF_FFFF_FFFF_FFFF_FFFF_0000_0000u128,
{
}

/// Masking with the magnitude bits and then the index bits collapses to
/// masking with the index bits alone.
proof fn lemma_index_collapse(bits: u128)
    by (bit_vector)
    ensures
        (bits & (0x7FFF_FFFF_FFFF_FFFF_FFFF_FFFF_0000_0000u128 | 0xFFFF_FFFFu128))
            & 0xFFFF_FFFFu128 == bits & 0xFFFF_FFFFu128,
        bits & 0xFFFF_FFFFu128 <= 0xFFFF_FFFFu128,
{
}

/// The entropy part of any word is itself confined to the entropy bits.
proof fn lemma_entropy_confined(bits: u128)
    by (bit_vector)
    ensures
        ((bits & (0x7FFF_FFFF_FFFF_FFFF_FFFF_FFFF_0000_0000u128 | 0xFFFF_FFFFu128))
            & 0x7FFF_FFFF_FFFF_FFFF_FFFF_FFFF_0000_0000u128)
            & 0x7FFF_FFFF_FFFF_FFFF_FFFF_FFFF_0000_0000u128 == (bits
            & (0x7FFF_FFFF_FFFF_FFFF_FFFF_FFFF_0000_0000u128 | 0xFFFF_FFFFu128))
            & 0x7FFF_FFFF_FFFF_FFFF_FFFF_FFFF_0000_0000u128,
{
}

/// Flag and magnitude of a word rebuilt from a magnitude that fits below
/// the flag bit.
proof fn lemma_from_parts(mag: u128)
    by (bit_vector)
    requires
        mag <= 0x7FFF_FFFF_FFFF_FFFF_FFFF_FFFF_FFFF_FFFFu128,
    ensures
        (0x8000_0000_0000_0000_0000_0000_0000_0000u128 | mag)
            & 0x8000_0000_0000_0000_0000_0000_0000_0000u128
            == 0x8000_0000_0000_0000_0000_0000_0000_0000u128,
        (0x8000_0000_0000_0000_0000_0000_0000_0000u128 | mag)
            & (0x7FFF_FFFF_FFFF_FFFF_FFFF_FFFF_0000_0000u128 | 0xFFFF_FFFFu128) == mag,
        mag & 0x8000_0000_0000_0000_0000_0000_0000_0000u128 == 0,
        mag & (0x7FFF_FFFF_FFFF_FFFF_FFFF_FFFF_0000_0000u128 | 0xFFFF_FFFFu128) == mag,
{
}

/// Any identifier is rebuilt exactly from its own flag and magnitude.
pub proof fn lemma_from_parts_roundtrip(u: UniqueId)
    ensures
        UniqueId::from_parts(u.is_indexed(), u.mag_bits()) == u,
        u.mag_bits() <= 0x7FFF_FFFF_FFFF_FFFF_FFFF_FFFF_FFFF_FFFFu128,
{
    let b = u.bits_spec();
    assert(b & (0x7FFF_FFFF_FFFF_FFFF_FFFF_FFFF_0000_0000u128 | 0xFFFF_FFFFu128)
        <= 0x7FFF_FFFF_FFFF_FFFF_FFFF_FFFF_FFFF_FFFFu128) by (bit_vector);
    if u.is_indexed() {
        assert(b & 0x8000_0000_0000_0000_0000_0000_0000_0000u128
            == 0x8000_0000_0000_0000_0000_0000_0000_0000u128 ==> 0x8000_0000_0000_0000_0000_0000_0000_0000u128
            | (b & (0x7FFF_FFFF_FFFF_FFFF_FFFF_FFFF_0000_0000u128 | 0xFFFF_FFFFu128)) == b)
            by (bit_vector);
    } else {
        assert(b & 0x8000_0000_0000_0000_0000_0000_0000_0000u128
            != 0x8000_0000_0000_0000_0000_0000_0000_0000u128 ==> b & (
        0x7FFF_FFFF_FFFF_FFFF_FFFF_FFFF_0000_0000u128 | 0xFFFF_FFFFu128) == b) by (bit_vector);
    }
}

/// A vector of uniquely identifiable, indexable items.
///
/// Pushing an item returns a fresh indexed [`UniqueId`] that must be used to
/// retrieve it later. Each access compares the stored identifier with the
/// one presented, so a stale identifier — one whose slot has since been
/// handed to another item — is detected and answered with `None`.
pub struct UniqueVec<T> {
    data: Vec<T>,
    uids: Vec<UniqueId>,
}

impl<T> UniqueVec<T> {
    /// The stored items, in slot order.
    pub closed spec fn items(self) -> Seq<T> {
        self.data@
    }

    /// The identifier of each slot.
    pub closed spec fn ids(self) -> Seq<UniqueId> {
        self.uids@
    }

    /// Each slot's identifier is well-formed and carries exactly that
    /// slot's position as its index.
    pub open spec fn wf(self) -> bool {
        &&& self.ids().len() == self.items().len()
        &&& self.items().len() <= 0x1_0000_0000
        &&& forall|i: int|
            0 <= i < self.ids().len() ==> (#[trigger] self.ids()[i]).wf() && self.ids()[
                i
            ].spec_index() == Some(i as u32)
    }

    /// The slot that `uid` addresses: its embedded index, provided the slot
    /// exists and still holds exactly that identifier.
    pub open spec fn lookup(self, uid: UniqueId) -> Option<int> {
        match uid.spec_index() {
            Some(ix) => if ix < self.items().len() && self.ids()[ix as int] == uid {
                Some(ix as int)
            } else {
                None
            },
            None => None,
        }
    }

    /// An empty vector.
    pub fn new() -> (r: UniqueVec<T>)
        ensures
            r.wf(),
            r.items() == Seq::<T>::empty(),
            r.ids() == Seq::<UniqueId>::empty(),
    {
        UniqueVec { data: Vec::new(), uids: Vec::new() }
    }

    /// Appends an item and returns the fresh indexed identifier that
    /// addresses it.
    pub fn push(&mut self, t: T) -> (uid: UniqueId)
        requires
            old(self).wf(),
            old(self).items().len() < 0x1_0000_0000,
        ensures
            final(self).wf(),
            final(self).items() == old(self).items().push(t),
            final(self).ids() == old(self).ids().push(uid),
            uid.wf(),
            uid.spec_index() == Some(old(self).items().len() as u32),
            final(self).lookup(uid) == Some(old(self).items().len() as int),
    {
        let idx = self.data.len();
        let uid = UniqueId::get_with_index(idx);
        self.data.push(t);
        self.uids.push(uid);
        proof {
            assert forall|i: int| 0 <= i < self.ids().len() implies (
            #[trigger] self.ids()[i]).wf() && self.ids()[i].spec_index() == Some(i as u32) by {
                if i < old(self).ids().len() {
                    assert(self.ids()[i] == old(self).ids()[i]);
                }
            }
        }
        uid
    }

    /// Removes and returns the last item together with its identifier, or
    /// `None` when the vector is empty.
    pub fn pop(&mut self) -> (r: Option<(UniqueId, T)>)
        requires
            old(self).wf(),
        ensures
            final(self).wf(),
            match r {
                None => {
                    &&& old(self).items().len() == 0
                    &&& final(self).items() == old(self).items()
                    &&& final(self).ids() == old(self).ids()
                },
                Some((uid, t)) => {
                    &&& old(self).items().len() > 0
                    &&& uid == old(self).ids().last()
                    &&& t == old(self).items().last()
                    &&& final(self).items() == old(self).items().drop_last()
                    &&& final(self).ids() == old(self).ids().drop_last()
                },
            },
    {
        let uid = self.uids.pop();
        let t = self.data.pop();
        proof {
            if old(self).items().len() > 0 {
                assert(self.ids() =~= old(self).ids().drop_last());
                assert(self.items() =~= old(self).items().drop_last());
            }
        }
        match (uid, t) {
            (Some(u), Some(x)) => Some((u, x)),
            _ => None,
        }
    }

    /// The item addressed by `uid`: `Some` exactly when the identifier is
    /// indexed, its slot exists, and the slot still holds that identifier.
    pub fn get(&self, uid: UniqueId) -> (r: Option<&T>)
        requires
            self.wf(),
        ensures
            self.lookup(uid) is Some <==> r is Some,
            r matches Some(t) ==> (match self.lookup(uid) {
                Some(ix) => *t == self.items()[ix],
                None => false,
            }),
    {
        match uid.index() {
            Some(index) => {
                if index < self.data.len() {
                    let stored = self.uids[index];
                    if stored == uid {
                        Some(&self.data[index])
                    } else {
                        None
                    }
                } else {
                    None
                }
            },
            None => None,
        }
    }

    /// Replaces the item addressed by `uid`, returning the previous item as
    /// `Ok`; a stale or unindexed identifier leaves the vector unchanged
    /// and hands the item back as `Err`.
    pub fn set(&mut self, uid: UniqueId, t: T) -> (r: Result<T, T>)
        requires
            old(self).wf(),
        ensures
            final(self).wf(),
            final(self).ids() == old(self).ids(),
            match old(self).lookup(uid) {
                Some(ix) => r matches Ok(prev) && prev == old(self).items()[ix]
                    && final(self).items() == old(self).items().update(ix, t),
                None => r == Err::<T, T>(t) && final(self).items() == old(self).items(),
            },
    {
        match uid.index() {
            Some(index) => {
                if index < self.data.len() {
                    let stored = self.uids[index];
                    if stored == uid {
                        let prev = self.data.remove(index);
                        self.data.insert(index, t);
                        proof {
                            assert(self.items() =~= old(self).items().update(index as int, t));
                        }
                        Ok(prev)
                    } else {
                        Err(t)
                    }
                } else {
                    Err(t)
                }
            },
            None => Err(t),
        }
    }
}

impl<T> Default for UniqueVec<T> {
    /// The empty vector.
    fn default() -> (r: UniqueVec<T>)
        ensures
            r.wf(),
            r.items() == Seq::<T>::empty(),
            r.ids() == Seq::<UniqueId>::empty(),
    {
        UniqueVec::new()
    }
}

/// Re-indexing is idempotent: when re-indexing produced a new identifier,
/// asking that identifier for the same index again signals a no-op.
pub proof fn lemma_reindex_idempotent(u: UniqueId, index: u32)
    ensures
        u.reindexed(index) matches Some(v) ==> v.reindexed(index) is None,
{
    if u.reindexed(index) is Some {
        let v = u.with_index(index);
        lemma_entropy_confined(u.bits_spec());
        lemma_with_index_parts(u.entropy(), index);
        assert(v.spec_index() == Some(index));
    }
}

/// The derived parts of `with_index`: indexed, same entropy, given index.
proof fn lemma_with_index_parts(e: u128, index: u32)
    by (bit_vector)
    requires
        e & 0x7FFF_FFFF_FFFF_FFFF_FFFF_FFFF_0000_0000u128 == e,
    ensures
        ({
            let bits = 0x8000_0000_0000_0000_0000_0000_0000_0000u128 | e | (index as u128);
            &&& bits & 0x8000_0000_0000_0000_0000_0000_0000_0000u128
                == 0x8000_0000_0000_0000_0000_0000_0000_0000u128
            &&& ((bits & (0x7FFF_FFFF_FFFF_FFFF_FFFF_FFFF_0000_0000u128 | 0xFFFF_FFFFu128))
                & 0xFFFF_FFFFu128) as u32 == index
        }),
{
}

} // verus!
