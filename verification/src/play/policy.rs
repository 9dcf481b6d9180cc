//! Compact, read-only view of a trained blueprint strategy.
//!
//! The trainer persists a map from information key to action distribution.  At
//! full depth that is hundreds of millions of entries, so the artifact is read
//! straight into three flat arrays — sorted keys, packed offset+length, and one
//! contiguous probability pool — and lookups are a binary search.
//!
//! Probabilities are carried as the bit patterns of 32-bit floats.
//!
//! The artifact is little-endian: an entry count, then per entry the key, the
//! width of its row, and the row.

use crate::util::decimal::{decimal, push_decimal};
use vstd::prelude::*;
use vstd::slice::*;
use vstd::string::*;

verus! {

/// The most actions a row can have.
pub const MAX_WIDTH: usize = 15;

/// A key's row lies at `offset = packed >> 4`, `len = packed & 0xF`.
#[derive(Debug, Clone, Copy, PartialEq, Eq, Structural)]
pub struct Entry {
    pub key: u64,
    pub packed: u64,
}

impl Entry {
    pub open spec fn offset(self) -> int {
        self.packed as int / 16
    }

    pub open spec fn width(self) -> int {
        self.packed as int % 16
    }
}

/// Sorted flat map from information key to an action distribution.
pub struct CompactPolicy {
    pub entries: Vec<Entry>,
    pub probs: Vec<u32>,
}

/// The keys ascend.
pub open spec fn sorted(entries: Seq<Entry>) -> bool {
    forall|i: int, j: int|
        0 <= i <= j < entries.len() ==> (#[trigger] entries[i]).key <= (#[trigger] entries[j]).key
}

/// Every row lies in the pool.
pub open spec fn in_pool(entries: Seq<Entry>, probs: Seq<u32>) -> bool {
    forall|i: int|
        0 <= i < entries.len() ==> (#[trigger] entries[i]).offset() + entries[i].width()
            <= probs.len()
}

/// The row of an entry.
pub open spec fn row_of(e: Entry, probs: Seq<u32>) -> Seq<u32> {
    probs.subrange(e.offset(), e.offset() + e.width())
}

/// `[T]::sort_unstable_by_key` of the standard library, on entries by their
/// key.  Claimed: the entries are the same, each as often as before, and
/// afterwards their keys ascend.  Nothing is claimed of the order of entries
/// with equal keys.
#[verifier::external_body]
fn sort_by_key(entries: &mut Vec<Entry>)
    ensures
        final(entries)@.to_multiset() == old(entries)@.to_multiset(),
        sorted(final(entries)@),
{
    entries.sort_unstable_by_key(|e| e.key);
}

/// A row with its key.
#[verifier::ext_equal]
pub struct Row {
    pub key: u64,
    pub probs: Seq<u32>,
}

/// Why an artifact cannot be read.
#[derive(Debug, Clone, Copy, PartialEq, Eq, Structural)]
pub enum LoadError {
    /// The bytes end inside an entry.
    Truncated,
    /// A row with this many actions.
    TooWide(u64),
}

/// The little-endian number in the eight bytes at `pos`.
pub open spec fn u64_at(bytes: Seq<u8>, pos: int) -> int {
    bytes[pos] + bytes[pos + 1] * 0x100 + bytes[pos + 2] * 0x1_0000 + bytes[pos + 3] * 0x100_0000
        + bytes[pos + 4] * 0x1_0000_0000 + bytes[pos + 5] * 0x100_0000_0000 + bytes[pos + 6]
        * 0x1_0000_0000_0000 + bytes[pos + 7] * 0x100_0000_0000_0000
}

/// The little-endian number in the four bytes at `pos`.
pub open spec fn u32_at(bytes: Seq<u8>, pos: int) -> int {
    bytes[pos] + bytes[pos + 1] * 0x100 + bytes[pos + 2] * 0x1_0000 + bytes[pos + 3] * 0x100_0000
}

/// The row of `width` numbers at `pos`.
pub open spec fn row_at(bytes: Seq<u8>, pos: int, width: nat) -> Seq<u32> {
    Seq::new(width, |i: int| u32_at(bytes, pos + 4 * i) as u32)
}

/// The `count` entries that start at `pos`.
pub open spec fn rows_at(bytes: Seq<u8>, pos: int, count: nat) -> Result<Seq<Row>, LoadError>
    decreases count,
{
    if count == 0 {
        Ok(Seq::empty())
    } else if pos + 16 > bytes.len() {
        Err(LoadError::Truncated)
    } else {
        let key = u64_at(bytes, pos) as u64;
        let width = u64_at(bytes, pos + 8);
        if width > MAX_WIDTH {
            Err(LoadError::TooWide(width as u64))
        } else if pos + 16 + 4 * width > bytes.len() {
            Err(LoadError::Truncated)
        } else {
            let row = Row { key, probs: row_at(bytes, pos + 16, width as nat) };
            match rows_at(bytes, pos + 16 + 4 * width, (count - 1) as nat) {
                Ok(rest) => Ok(seq![row] + rest),
                Err(e) => Err(e),
            }
        }
    }
}

/// What an artifact holds.  Bytes after the last entry do not count.
pub open spec fn artifact_rows(bytes: Seq<u8>) -> Result<Seq<Row>, LoadError> {
    if bytes.len() < 8 {
        Err(LoadError::Truncated)
    } else {
        rows_at(bytes, 8, u64_at(bytes, 0) as nat)
    }
}

/// Read the little-endian number at `pos`; `None` where the bytes end first.
pub fn read_u64(bytes: &[u8], pos: usize) -> (value: Option<u64>)
    ensures
        match value {
            Some(v) => pos + 8 <= bytes@.len() && v == u64_at(bytes@, pos as int),
            None => pos + 8 > bytes@.len(),
        },
{
    if bytes.len() < 8 || pos > bytes.len() - 8 {
        return None;
    }
    Some(
        bytes[pos] as u64 + bytes[pos + 1] as u64 * 0x100 + bytes[pos + 2] as u64 * 0x1_0000
            + bytes[pos + 3] as u64 * 0x100_0000 + bytes[pos + 4] as u64 * 0x1_0000_0000
            + bytes[pos + 5] as u64 * 0x100_0000_0000 + bytes[pos + 6] as u64 * 0x1_0000_0000_0000
            + bytes[pos + 7] as u64 * 0x100_0000_0000_0000,
    )
}

/// Read the little-endian number at `pos`; `None` where the bytes end first.
pub fn read_u32(bytes: &[u8], pos: usize) -> (value: Option<u32>)
    ensures
        match value {
            Some(v) => pos + 4 <= bytes@.len() && v == u32_at(bytes@, pos as int),
            None => pos + 4 > bytes@.len(),
        },
{
    if bytes.len() < 4 || pos > bytes.len() - 4 {
        return None;
    }
    Some(
        bytes[pos] as u32 + bytes[pos + 1] as u32 * 0x100 + bytes[pos + 2] as u32 * 0x1_0000
            + bytes[pos + 3] as u32 * 0x100_0000,
    )
}

/// The rows of the entries, in entry order.
pub open spec fn rows_of(entries: Seq<Entry>, probs: Seq<u32>) -> Seq<Row> {
    Seq::new(
        entries.len(),
        |i: int| Row { key: entries[i].key, probs: row_of(entries[i], probs) },
    )
}

fn pack(offset: usize, width: usize) -> (packed: u64)
    requires
        offset <= 0x0fff_ffff_ffff_ffff,
        width <= MAX_WIDTH,
    ensures
        packed as int / 16 == offset,
        packed as int % 16 == width,
{
    let o: u64 = offset as u64;
    let w: u64 = width as u64;
    assert((o << 4) | w == o * 16 + w) by (bit_vector)
        requires
            o <= 0x0fff_ffff_ffff_ffff,
            w <= 15,
    ;
    (o << 4) | w
}

impl CompactPolicy {
    /// Keys ascend and rows lie in the pool.
    pub open spec fn wf(&self) -> bool {
        sorted(self.entries@) && in_pool(self.entries@, self.probs@)
    }

    /// The policy stores `row`.
    pub open spec fn holds(&self, row: Row) -> bool {
        rows_of(self.entries@, self.probs@).contains(row)
    }

    /// Some row is stored under `key`.
    pub open spec fn knows(&self, key: u64) -> bool {
        exists|i: int| 0 <= i < self.entries@.len() && (#[trigger] self.entries@[i]).key == key
    }

    fn sorted_from(entries: Vec<Entry>, probs: Vec<u32>) -> (policy: CompactPolicy)
        requires
            in_pool(entries@, probs@),
        ensures
            policy.wf(),
            policy.entries@.len() == entries@.len(),
            forall|row: Row| #[trigger]
                policy.holds(row) <==> rows_of(entries@, probs@).contains(row),
    {
        let mut entries = entries;
        let ghost before = entries@;
        sort_by_key(&mut entries);
        proof {
            before.to_multiset_ensures();
            entries@.to_multiset_ensures();
            assert forall|i: int| 0 <= i < entries@.len() implies (#[trigger] entries@[i]).offset()
                + entries@[i].width() <= probs@.len() by {
                assert(entries@.contains(entries@[i]));
                assert(entries@.to_multiset().count(entries@[i]) > 0);
                assert(before.contains(entries@[i]));
            }
            assert forall|row: Row|
                rows_of(entries@, probs@).contains(row) <==> rows_of(before, probs@).contains(
                    row,
                ) by {
                if rows_of(before, probs@).contains(row) {
                    lemma_rows_follow_entries(before, entries@, probs@, row);
                }
                if rows_of(entries@, probs@).contains(row) {
                    lemma_rows_follow_entries(entries@, before, probs@, row);
                }
            }
        }
        CompactPolicy { entries, probs }
    }

    /// Read an artifact.
    pub fn from_bytes(bytes: &[u8]) -> (r: Result<CompactPolicy, LoadError>)
        requires
            bytes@.len() <= 0x0fff_ffff_ffff_ffff,
        ensures
            match r {
                Ok(policy) => policy.wf() && (artifact_rows(bytes@) matches Ok(rows)
                    && policy.entries@.len() == rows.len() && forall|row: Row| #[trigger]
                    policy.holds(row) <==> rows.contains(row)),
                Err(e) => artifact_rows(bytes@) == Err::<Seq<Row>, LoadError>(e),
            },
    {
        let n: u64 = match read_u64(bytes, 0) {
            Some(n) => n,
            None => {
                return Err(LoadError::Truncated);
            },
        };
        let size: usize = bytes.len();
        let mut entries: Vec<Entry> = Vec::new();
        let mut probs: Vec<u32> = Vec::new();
        let mut pos: usize = 8;
        let mut left: u64 = n;
        proof {
            assert(rows_of(entries@, probs@) =~= Seq::<Row>::empty());
            match rows_at(bytes@, 8, n as nat) {
                Ok(rest) => {
                    assert(Seq::<Row>::empty() + rest =~= rest);
                },
                Err(_) => {},
            }
        }
        while left > 0
            invariant
                8 <= size <= 0x0fff_ffff_ffff_ffff,
                size == bytes@.len(),
                8 <= pos <= bytes@.len(),
                n == u64_at(bytes@, 0),
                left <= n,
                4 * probs@.len() <= pos,
                in_pool(entries@, probs@),
                artifact_rows(bytes@) == match rows_at(bytes@, pos as int, left as nat) {
                    Ok(rest) => Ok::<Seq<Row>, LoadError>(rows_of(entries@, probs@) + rest),
                    Err(e) => Err::<Seq<Row>, LoadError>(e),
                },
            decreases left,
        {
            let key: u64 = match read_u64(bytes, pos) {
                Some(key) => key,
                None => {
                    return Err(LoadError::Truncated);
                },
            };
            let width: u64 = match read_u64(bytes, pos + 8) {
                Some(width) => width,
                None => {
                    return Err(LoadError::Truncated);
                },
            };
            if width > MAX_WIDTH as u64 {
                return Err(LoadError::TooWide(width));
            }
            let w: usize = width as usize;
            let start: usize = pos + 16;
            if size - start < 4 * w {
                return Err(LoadError::Truncated);
            }
            let offset: usize = probs.len();
            let ghost pool = probs@;
            let mut i: usize = 0;
            while i < w
                invariant
                    i <= w <= 15,
                    size == bytes@.len(),
                    start + 4 * w <= size,
                    probs@ == pool + row_at(bytes@, start as int, w as nat).take(i as int),
                decreases w - i,
            {
                match read_u32(bytes, start + 4 * i) {
                    Some(p) => {
                        probs.push(p);
                    },
                    None => {},
                }
                i += 1;
                assert(probs@ =~= pool + row_at(bytes@, start as int, w as nat).take(i as int));
            }
            let ghost earlier = entries@;
            let entry = Entry { key, packed: pack(offset, w) };
            entries.push(entry);
            proof {
                let row = Row { key, probs: row_at(bytes@, start as int, w as nat) };
                assert(row_of(entry, probs@) =~= row.probs);
                assert(probs@.take(pool.len() as int) =~= pool);
                lemma_pool_grows(earlier, pool, probs@);
                assert(rows_of(entries@, probs@) =~= rows_of(earlier, pool) + seq![row]);
                let next = start + 4 * w;
                match rows_at(bytes@, next as int, (left - 1) as nat) {
                    Ok(rest) => {
                        assert(rows_of(earlier, pool) + (seq![row] + rest) =~= (rows_of(
                            earlier,
                            pool,
                        ) + seq![row]) + rest);
                    },
                    Err(_) => {},
                }
            }
            pos = start + 4 * w;
            left -= 1;
        }
        proof {
            assert(rows_of(entries@, probs@) + Seq::<Row>::empty() =~= rows_of(entries@, probs@));
        }
        Ok(Self::sorted_from(entries, probs))
    }

    /// Build from explicit entries (tests / small games).
    pub fn from_entries(list: &[(u64, Vec<u32>)]) -> (policy: CompactPolicy)
        requires
            forall|i: int| 0 <= i < list@.len() ==> (#[trigger] list@[i]).1@.len() <= MAX_WIDTH,
            list@.len() <= 0x00ff_ffff_ffff_ffff,
        ensures
            policy.wf(),
            policy.entries@.len() == list@.len(),
            forall|row: Row| #[trigger] policy.holds(row) <==> listed_rows(list@).contains(row),
    {
        let mut entries: Vec<Entry> = Vec::new();
        let mut probs: Vec<u32> = Vec::new();
        let mut k: usize = 0;
        assert(rows_of(entries@, probs@) =~= listed_rows(list@).take(0));
        while k < list.len()
            invariant
                k <= list@.len() <= 0x00ff_ffff_ffff_ffff,
                forall|i: int|
                    0 <= i < list@.len() ==> (#[trigger] list@[i]).1@.len() <= MAX_WIDTH,
                probs@.len() <= 15 * k,
                entries@.len() == k,
                in_pool(entries@, probs@),
                rows_of(entries@, probs@) == listed_rows(list@).take(k as int),
            decreases list@.len() - k,
        {
            let item: &(u64, Vec<u32>) = &list[k];
            let offset: usize = probs.len();
            let ghost pool = probs@;
            let ghost earlier = entries@;
            probs.extend_from_slice(item.1.as_slice());
            assert(probs@ =~= pool + item.1@);
            let entry = Entry { key: item.0, packed: pack(offset, item.1.len()) };
            entries.push(entry);
            k += 1;
            proof {
                assert(row_of(entry, probs@) =~= item.1@);
                assert(probs@.take(pool.len() as int) =~= pool);
                lemma_pool_grows(earlier, pool, probs@);
                assert forall|i: int| 0 <= i < k implies rows_of(entries@, probs@)[i]
                    == #[trigger] listed_rows(list@)[i] by {
                    if i < k - 1 {
                        assert(entries@[i] == earlier[i]);
                        assert(rows_of(entries@, probs@)[i] == rows_of(earlier, probs@)[i]);
                        assert(rows_of(earlier, pool)[i] == listed_rows(list@).take(k - 1)[i]);
                    }
                }
                assert(rows_of(entries@, probs@) =~= listed_rows(list@).take(k as int));
            }
        }
        assert(listed_rows(list@).take(k as int) =~= listed_rows(list@));
        Self::sorted_from(entries, probs)
    }

    /// The stored distribution for `key`, if the blueprint visited it.
    pub fn get(&self, key: u64) -> (row: Option<&[u32]>)
        requires
            self.wf(),
        ensures
            match row {
                Some(probs) => self.holds(Row { key, probs: probs@ }),
                None => !self.knows(key),
            },
    {
        let mut lo: usize = 0;
        let mut hi: usize = self.entries.len();
        while lo < hi
            invariant
                self.wf(),
                lo <= hi <= self.entries@.len(),
                forall|i: int| 0 <= i < lo ==> (#[trigger] self.entries@[i]).key < key,
                forall|i: int|
                    hi <= i < self.entries@.len() ==> (#[trigger] self.entries@[i]).key > key,
            decreases hi - lo,
        {
            let mid: usize = lo + (hi - lo) / 2;
            let e: Entry = self.entries[mid];
            if e.key == key {
                let packed: u64 = e.packed;
                assert(packed >> 4 == packed / 16) by (bit_vector);
                assert(packed & 0xF == packed % 16) by (bit_vector);
                assert(self.entries@[mid as int] == e);
                let size: usize = self.probs.len();
                assert(packed / 16 + packed % 16 <= size);
                let offset: usize = (packed >> 4) as usize;
                let width: usize = (packed & 0xF) as usize;
                let found: &[u32] = slice_subrange(self.probs.as_slice(), offset, offset + width);
                assert(rows_of(self.entries@, self.probs@)[mid as int] =~= (Row {
                    key,
                    probs: found@,
                }));
                return Some(found);
            }
            if e.key < key {
                lo = mid + 1;
            } else {
                hi = mid;
            }
        }
        None
    }

    /// The distribution for `key` where it fits a menu of `num_actions`;
    /// `None` stands for uniform over the menu: the blueprint never visited the
    /// information set, or its stored width disagrees with the queried menu
    /// (the key collided or the abstraction changed).
    pub fn probs_or_uniform(&self, key: u64, num_actions: usize) -> (row: Option<&[u32]>)
        requires
            self.wf(),
        ensures
            match row {
                Some(probs) => probs@.len() == num_actions && self.holds(Row { key, probs: probs@ }),
                None => !self.knows(key) || exists|r: Row| #[trigger]
                    self.holds(r) && r.key == key && r.probs.len() != num_actions,
            },
    {
        match self.get(key) {
            Some(probs) => {
                if probs.len() == num_actions {
                    Some(probs)
                } else {
                    assert(self.holds(Row { key, probs: probs@ }));
                    None
                }
            },
            None => None,
        }
    }

    /// Number of stored rows.
    pub fn len(&self) -> (len: usize)
        ensures
            len == self.entries@.len(),
    {
        self.entries.len()
    }

    /// Whether nothing is stored.
    pub fn is_empty(&self) -> (empty: bool)
        ensures
            empty == (self.entries@.len() == 0),
    {
        self.entries.len() == 0
    }
}

/// The rows of a list.
pub open spec fn listed_rows(list: Seq<(u64, Vec<u32>)>) -> Seq<Row> {
    Seq::new(list.len(), |i: int| Row { key: list[i].0, probs: list[i].1@ })
}

proof fn lemma_pool_grows(entries: Seq<Entry>, pool: Seq<u32>, longer: Seq<u32>)
    requires
        in_pool(entries, pool),
        pool.len() <= longer.len(),
        longer.take(pool.len() as int) == pool,
    ensures
        rows_of(entries, longer) == rows_of(entries, pool),
        in_pool(entries, longer),
{
    assert forall|i: int| 0 <= i < entries.len() implies row_of(#[trigger] entries[i], longer)
        == row_of(entries[i], pool) by {
        let e = entries[i];
        assert forall|k: int| e.offset() <= k < e.offset() + e.width() implies longer[k]
            == pool[k] by {
            assert(longer.take(pool.len() as int)[k] == longer[k]);
        }
        assert(row_of(e, longer) =~= row_of(e, pool));
    }
    assert(rows_of(entries, longer) =~= rows_of(entries, pool));
}

proof fn lemma_rows_follow_entries(
    from: Seq<Entry>,
    to: Seq<Entry>,
    probs: Seq<u32>,
    row: Row,
)
    requires
        from.to_multiset() == to.to_multiset(),
        rows_of(from, probs).contains(row),
    ensures
        rows_of(to, probs).contains(row),
{
    from.to_multiset_ensures();
    to.to_multiset_ensures();
    let i = choose|i: int| 0 <= i < from.len() && rows_of(from, probs)[i] == row;
    assert(from.contains(from[i]));
    assert(from.to_multiset().count(from[i]) > 0);
    assert(to.contains(from[i]));
    let j = choose|j: int| 0 <= j < to.len() && to[j] == from[i];
    assert(rows_of(to, probs)[j] == row);
}

impl LoadError {
    /// The error text of a row that is too wide.
    pub fn too_wide_message(count: u64) -> (message: String)
        ensures
            message@ == "action count "@ + decimal(count as nat)
                + " exceeds the 15-action packing limit"@,
    {
        let mut message: String = "action count ".to_owned();
        push_decimal(&mut message, count);
        message.append(" exceeds the 15-action packing limit");
        message
    }
}

/// Where no two entries share a key, a key has one row: what
/// [`CompactPolicy::get`] returns is determined.
pub proof fn law_one_row_per_key(
    entries: Seq<Entry>,
    probs: Seq<u32>,
    key: u64,
    row: Seq<u32>,
    other: Seq<u32>,
)
    requires
        forall|i: int, j: int|
            0 <= i < j < entries.len() ==> (#[trigger] entries[i]).key != (
            #[trigger] entries[j]).key,
        rows_of(entries, probs).contains(Row { key, probs: row }),
        rows_of(entries, probs).contains(Row { key, probs: other }),
    ensures
        row == other,
{
    let rows = rows_of(entries, probs);
    let i = choose|i: int| 0 <= i < rows.len() && rows[i] == (Row { key, probs: row });
    let j = choose|j: int| 0 <= j < rows.len() && rows[j] == (Row { key, probs: other });
    assert(entries[i].key == key && entries[j].key == key);
    if i < j {
        assert(entries[i].key != entries[j].key);
    }
    if j < i {
        assert(entries[j].key != entries[i].key);
    }
}

/// A policy that stores exactly `rows`, no two of which share a key, answers for
/// every row with that row, whatever the order of the rows, and knows no other
/// key.
pub proof fn law_stored_rows_are_found(policy: CompactPolicy, rows: Seq<Row>, i: int, key: u64, probs: Seq<u32>)
    requires
        forall|row: Row| #[trigger] policy.holds(row) <==> rows.contains(row),
        forall|i: int, j: int|
            0 <= i < j < rows.len() ==> (#[trigger] rows[i]).key != (#[trigger] rows[j]).key,
        0 <= i < rows.len(),
    ensures
        policy.knows(rows[i].key),
        policy.holds(Row { key: rows[i].key, probs }) ==> probs == rows[i].probs,
        (forall|j: int| 0 <= j < rows.len() ==> (#[trigger] rows[j]).key != key) ==> !policy.knows(
            key,
        ),
{
    let stored = rows_of(policy.entries@, policy.probs@);
    assert(rows.contains(rows[i]));
    assert(policy.holds(rows[i]));
    let at = choose|k: int| 0 <= k < stored.len() && stored[k] == rows[i];
    assert(policy.entries@[at].key == rows[i].key);
    let row = Row { key: rows[i].key, probs };
    if policy.holds(row) {
        let j = choose|j: int| 0 <= j < rows.len() && rows[j] == row;
        if j < i {
            assert(rows[j].key != rows[i].key);
        }
        if i < j {
            assert(rows[i].key != rows[j].key);
        }
    }
    if policy.knows(key) {
        let k = choose|k: int|
            0 <= k < policy.entries@.len() && (#[trigger] policy.entries@[k]).key == key;
        assert(stored.contains(stored[k]));
        assert(policy.holds(stored[k]));
        let j = choose|j: int| 0 <= j < rows.len() && rows[j] == stored[k];
        assert(rows[j].key == key);
    }
}

/// `n` in `k` little-endian bytes.
pub open spec fn le_digits(n: nat, k: nat) -> Seq<u8>
    decreases k,
{
    if k == 0 {
        Seq::empty()
    } else {
        seq![(n % 256) as u8] + le_digits(n / 256, (k - 1) as nat)
    }
}

/// The numbers of a row, four bytes each.
pub open spec fn row_bytes(probs: Seq<u32>) -> Seq<u8>
    decreases probs.len(),
{
    if probs.len() == 0 {
        Seq::empty()
    } else {
        le_digits(probs[0] as nat, 4) + row_bytes(probs.skip(1))
    }
}

/// The entries of an artifact.
pub open spec fn entry_bytes(rows: Seq<Row>) -> Seq<u8>
    decreases rows.len(),
{
    if rows.len() == 0 {
        Seq::empty()
    } else {
        le_digits(rows[0].key as nat, 8) + le_digits(rows[0].probs.len(), 8) + row_bytes(
            rows[0].probs,
        ) + entry_bytes(rows.skip(1))
    }
}

/// The artifact that holds `rows`.
pub open spec fn artifact_bytes(rows: Seq<Row>) -> Seq<u8> {
    le_digits(rows.len(), 8) + entry_bytes(rows)
}

proof fn lemma_le_digits(n: nat, bytes: Seq<u8>, pos: int)
    requires
        0 <= pos,
    ensures
        le_digits(n, 8).len() == 8,
        le_digits(n, 4).len() == 4,
        n <= u64::MAX && pos + 8 <= bytes.len() && bytes.subrange(pos, pos + 8) == le_digits(n, 8)
            ==> u64_at(bytes, pos) == n,
        n <= u32::MAX && pos + 4 <= bytes.len() && bytes.subrange(pos, pos + 4) == le_digits(n, 4)
            ==> u32_at(bytes, pos) == n,
{
    reveal_with_fuel(le_digits, 9);
    let n1 = n / 256;
    let n2 = n1 / 256;
    let n3 = n2 / 256;
    let n4 = n3 / 256;
    let n5 = n4 / 256;
    let n6 = n5 / 256;
    let n7 = n6 / 256;
    let d8 = le_digits(n, 8);
    let d4 = le_digits(n, 4);
    assert(d8 =~= seq![
        (n % 256) as u8,
        (n1 % 256) as u8,
        (n2 % 256) as u8,
        (n3 % 256) as u8,
        (n4 % 256) as u8,
        (n5 % 256) as u8,
        (n6 % 256) as u8,
        (n7 % 256) as u8,
    ]);
    assert(d4 =~= seq![
        (n % 256) as u8,
        (n1 % 256) as u8,
        (n2 % 256) as u8,
        (n3 % 256) as u8,
    ]);
    if n <= u64::MAX && pos + 8 <= bytes.len() && bytes.subrange(pos, pos + 8) == d8 {
        let s = bytes.subrange(pos, pos + 8);
        assert(s[0] == bytes[pos] && s[1] == bytes[pos + 1] && s[2] == bytes[pos + 2] && s[3]
            == bytes[pos + 3] && s[4] == bytes[pos + 4] && s[5] == bytes[pos + 5] && s[6]
            == bytes[pos + 6] && s[7] == bytes[pos + 7]);
        assert(n7 < 256);
    }
    if n <= u32::MAX && pos + 4 <= bytes.len() && bytes.subrange(pos, pos + 4) == d4 {
        let s = bytes.subrange(pos, pos + 4);
        assert(s[0] == bytes[pos] && s[1] == bytes[pos + 1] && s[2] == bytes[pos + 2] && s[3]
            == bytes[pos + 3]);
        assert(n3 < 256);
    }
}

proof fn lemma_row_bytes(probs: Seq<u32>, bytes: Seq<u8>, pos: int)
    requires
        0 <= pos,
        pos + 4 * probs.len() <= bytes.len(),
        bytes.subrange(pos, pos + 4 * probs.len()) == row_bytes(probs),
    ensures
        row_at(bytes, pos, probs.len()) == probs,
    decreases probs.len(),
{
    if probs.len() == 0 {
        assert(row_at(bytes, pos, 0) =~= probs);
    } else {
        let rest = probs.skip(1);
        let whole = bytes.subrange(pos, pos + 4 * probs.len());
        lemma_row_bytes_len(rest);
        lemma_le_digits(probs[0] as nat, bytes, pos);
        assert(whole.subrange(0, 4) =~= le_digits(probs[0] as nat, 4));
        assert(bytes.subrange(pos, pos + 4) =~= whole.subrange(0, 4));
        assert(whole.subrange(4, whole.len() as int) =~= row_bytes(rest));
        assert(bytes.subrange(pos + 4, pos + 4 + 4 * rest.len()) =~= whole.subrange(
            4,
            whole.len() as int,
        ));
        lemma_row_bytes(rest, bytes, pos + 4);
        assert forall|i: int| 0 <= i < probs.len() implies row_at(bytes, pos, probs.len())[i]
            == probs[i] by {
            if i > 0 {
                assert(row_at(bytes, pos + 4, rest.len())[i - 1] == rest[i - 1]);
                assert(pos + 4 + 4 * (i - 1) == pos + 4 * i);
            }
        }
        assert(row_at(bytes, pos, probs.len()) =~= probs);
    }
}

proof fn lemma_row_bytes_len(probs: Seq<u32>)
    ensures
        row_bytes(probs).len() == 4 * probs.len(),
    decreases probs.len(),
{
    if probs.len() > 0 {
        lemma_le_digits(probs[0] as nat, Seq::empty(), 0);
        lemma_row_bytes_len(probs.skip(1));
    }
}

proof fn lemma_entries_read_back(rows: Seq<Row>, bytes: Seq<u8>, pos: int)
    requires
        forall|i: int| 0 <= i < rows.len() ==> (#[trigger] rows[i]).probs.len() <= MAX_WIDTH,
        0 <= pos <= bytes.len(),
        bytes.subrange(pos, bytes.len() as int) == entry_bytes(rows),
    ensures
        rows_at(bytes, pos, rows.len()) == Ok::<Seq<Row>, LoadError>(rows),
    decreases rows.len(),
{
    if rows.len() == 0 {
        assert(rows =~= Seq::<Row>::empty());
    } else {
        let row = rows[0];
        let rest = rows.skip(1);
        let w = row.probs.len() as int;
        let whole = bytes.subrange(pos, bytes.len() as int);
        lemma_row_bytes_len(row.probs);
        lemma_le_digits(row.key as nat, bytes, pos);
        lemma_le_digits(row.probs.len(), bytes, pos + 8);
        assert(whole.len() >= 16 + 4 * w);
        assert(whole.subrange(0, 8) =~= le_digits(row.key as nat, 8));
        assert(bytes.subrange(pos, pos + 8) =~= whole.subrange(0, 8));
        assert(whole.subrange(8, 16) =~= le_digits(row.probs.len(), 8));
        assert(bytes.subrange(pos + 8, pos + 16) =~= whole.subrange(8, 16));
        assert(whole.subrange(16, 16 + 4 * w) =~= row_bytes(row.probs));
        assert(bytes.subrange(pos + 16, pos + 16 + 4 * w) =~= whole.subrange(16, 16 + 4 * w));
        lemma_row_bytes(row.probs, bytes, pos + 16);
        let next = pos + 16 + 4 * w;
        assert(whole.subrange(16 + 4 * w, whole.len() as int) =~= entry_bytes(rest));
        assert(bytes.subrange(next, bytes.len() as int) =~= whole.subrange(
            16 + 4 * w,
            whole.len() as int,
        ));
        assert forall|i: int| 0 <= i < rest.len() implies (#[trigger] rest[i]).probs.len()
            <= MAX_WIDTH by {
            assert(rest[i] == rows[i + 1]);
        }
        lemma_entries_read_back(rest, bytes, next);
        assert(seq![row] + rest =~= rows);
    }
}

/// Reading gives back what was written: the artifact of any rows within the
/// width limit is read as exactly these rows.
pub proof fn law_artifact_round_trips(rows: Seq<Row>)
    requires
        rows.len() <= u64::MAX,
        forall|i: int| 0 <= i < rows.len() ==> (#[trigger] rows[i]).probs.len() <= MAX_WIDTH,
    ensures
        artifact_rows(artifact_bytes(rows)) == Ok::<Seq<Row>, LoadError>(rows),
{
    let bytes = artifact_bytes(rows);
    lemma_le_digits(rows.len(), bytes, 0);
    assert(bytes.subrange(0, 8) =~= le_digits(rows.len(), 8));
    assert(bytes.subrange(8, bytes.len() as int) =~= entry_bytes(rows));
    lemma_entries_read_back(rows, bytes, 8);
}

/// Where the bytes from `pos` on begin the entries of `rows`, they begin with
/// the first row's head, and go on with the other rows after it.
proof fn lemma_entry_head(rows: Seq<Row>, bytes: Seq<u8>, pos: int)
    requires
        rows.len() > 0,
        rows[0].probs.len() <= u64::MAX,
        0 <= pos,
        pos + 16 <= bytes.len(),
        bytes.len() - pos <= entry_bytes(rows).len(),
        bytes.subrange(pos, bytes.len() as int) == entry_bytes(rows).take(bytes.len() - pos),
    ensures
        u64_at(bytes, pos) == rows[0].key,
        u64_at(bytes, pos + 8) == rows[0].probs.len(),
        ({
            let rest = entry_bytes(rows.skip(1));
            let next = pos + 16 + 4 * rows[0].probs.len();
            &&& entry_bytes(rows).len() == 16 + 4 * rows[0].probs.len() + rest.len()
            &&& next <= bytes.len() ==> bytes.subrange(next, bytes.len() as int) == rest.take(
                bytes.len() - next,
            )
        }),
{
    let row = rows[0];
    let w = row.probs.len() as int;
    let all = entry_bytes(rows);
    let rest = entry_bytes(rows.skip(1));
    let tail = bytes.subrange(pos, bytes.len() as int);
    lemma_row_bytes_len(row.probs);
    lemma_le_digits(row.key as nat, bytes, pos);
    lemma_le_digits(row.probs.len(), bytes, pos + 8);
    assert(all.subrange(0, 8) =~= le_digits(row.key as nat, 8));
    assert(all.subrange(8, 16) =~= le_digits(row.probs.len(), 8));
    assert(bytes.subrange(pos, pos + 8) =~= tail.subrange(0, 8));
    assert(tail.subrange(0, 8) =~= all.subrange(0, 8));
    assert(bytes.subrange(pos + 8, pos + 16) =~= tail.subrange(8, 16));
    assert(tail.subrange(8, 16) =~= all.subrange(8, 16));
    let next = pos + 16 + 4 * w;
    if next <= bytes.len() {
        assert(all.skip(16 + 4 * w) =~= rest);
        assert(bytes.subrange(next, bytes.len() as int) =~= tail.skip(16 + 4 * w));
        assert forall|i: int| 0 <= i < bytes.len() - next implies tail.skip(16 + 4 * w)[i]
            == rest[i] by {
            assert(tail[16 + 4 * w + i] == all[16 + 4 * w + i]);
            assert(all.skip(16 + 4 * w)[i] == rest[i]);
        }
        assert(tail.skip(16 + 4 * w) =~= rest.take(bytes.len() - next));
    }
}

proof fn lemma_entries_cut(rows: Seq<Row>, bytes: Seq<u8>, pos: int)
    requires
        forall|i: int| 0 <= i < rows.len() ==> (#[trigger] rows[i]).probs.len() <= MAX_WIDTH,
        0 <= pos <= bytes.len(),
        bytes.len() - pos < entry_bytes(rows).len(),
        bytes.subrange(pos, bytes.len() as int) == entry_bytes(rows).take(bytes.len() - pos),
    ensures
        rows_at(bytes, pos, rows.len()) == Err::<Seq<Row>, LoadError>(LoadError::Truncated),
    decreases rows.len(),
{
    if pos + 16 <= bytes.len() {
        let rest = rows.skip(1);
        let next = pos + 16 + 4 * rows[0].probs.len();
        lemma_entry_head(rows, bytes, pos);
        if next <= bytes.len() {
            assert forall|i: int| 0 <= i < rest.len() implies (#[trigger] rest[i]).probs.len()
                <= MAX_WIDTH by {
                assert(rest[i] == rows[i + 1]);
            }
            lemma_entries_cut(rest, bytes, next);
        }
    }
}

proof fn lemma_entries_wide(rows: Seq<Row>, bytes: Seq<u8>, pos: int, k: int)
    requires
        0 <= k < rows.len(),
        forall|i: int| 0 <= i < k ==> (#[trigger] rows[i]).probs.len() <= MAX_WIDTH,
        MAX_WIDTH < rows[k].probs.len() <= u64::MAX,
        0 <= pos <= bytes.len(),
        bytes.subrange(pos, bytes.len() as int) == entry_bytes(rows),
    ensures
        rows_at(bytes, pos, rows.len()) == Err::<Seq<Row>, LoadError>(
            LoadError::TooWide(rows[k].probs.len() as u64),
        ),
    decreases k,
{
    let all = entry_bytes(rows);
    let rest = rows.skip(1);
    lemma_row_bytes_len(rows[0].probs);
    lemma_le_digits(rows[0].key as nat, bytes, pos);
    lemma_le_digits(rows[0].probs.len(), bytes, pos);
    assert(all.len() == bytes.len() - pos);
    assert(all.take(all.len() as int) =~= all);
    if k > 0 {
        assert(rows[0].probs.len() <= MAX_WIDTH);
    }
    lemma_entry_head(rows, bytes, pos);
    if k > 0 {
        let next = pos + 16 + 4 * rows[0].probs.len();
        let later = entry_bytes(rest);
        assert(later.take(later.len() as int) =~= later);
        assert forall|i: int| 0 <= i < k - 1 implies (#[trigger] rest[i]).probs.len()
            <= MAX_WIDTH by {
            assert(rest[i] == rows[i + 1]);
        }
        assert(rest[k - 1] == rows[k]);
        lemma_entries_wide(rest, bytes, next, k - 1);
    }
}

/// An artifact with a row beyond the width limit is refused, and the error
/// names the width of the first such row.
pub proof fn law_wide_rows_are_refused(rows: Seq<Row>, k: int)
    requires
        rows.len() <= u64::MAX,
        0 <= k < rows.len(),
        forall|i: int| 0 <= i < k ==> (#[trigger] rows[i]).probs.len() <= MAX_WIDTH,
        MAX_WIDTH < rows[k].probs.len() <= u64::MAX,
    ensures
        artifact_rows(artifact_bytes(rows)) == Err::<Seq<Row>, LoadError>(
            LoadError::TooWide(rows[k].probs.len() as u64),
        ),
{
    let bytes = artifact_bytes(rows);
    lemma_le_digits(rows.len(), bytes, 0);
    assert(bytes.subrange(0, 8) =~= le_digits(rows.len(), 8));
    assert(bytes.subrange(8, bytes.len() as int) =~= entry_bytes(rows));
    lemma_entries_wide(rows, bytes, 8, k);
}

/// An artifact that is cut short anywhere is refused.
pub proof fn law_cut_artifacts_are_refused(rows: Seq<Row>, n: int)
    requires
        rows.len() <= u64::MAX,
        forall|i: int| 0 <= i < rows.len() ==> (#[trigger] rows[i]).probs.len() <= MAX_WIDTH,
        0 <= n < artifact_bytes(rows).len(),
    ensures
        artifact_rows(artifact_bytes(rows).take(n)) == Err::<Seq<Row>, LoadError>(
            LoadError::Truncated,
        ),
{
    let all = artifact_bytes(rows);
    let bytes = all.take(n);
    lemma_le_digits(rows.len(), bytes, 0);
    if n >= 8 {
        assert(bytes.subrange(0, 8) =~= le_digits(rows.len(), 8));
        assert(all.skip(8) =~= entry_bytes(rows));
        assert(bytes.subrange(8, n) =~= all.skip(8).take(n - 8));
        lemma_entries_cut(rows, bytes, 8);
    }
}

/// A row lies where its entry says: its width in the low four bits of the packed
/// number, and above them its place in the pool.
pub proof fn law_rows_are_packed(policy: CompactPolicy, i: int, k: int)
    requires
        policy.wf(),
        0 <= i < policy.entries@.len(),
        0 <= k < policy.entries@[i].packed % 16,
    ensures
        ({
            let e = policy.entries@[i];
            let row = rows_of(policy.entries@, policy.probs@)[i];
            &&& row.key == e.key
            &&& row.probs.len() == e.packed % 16
            &&& e.packed / 16 + e.packed % 16 <= policy.probs@.len()
            &&& row.probs[k] == policy.probs@[e.packed as int / 16 + k]
            &&& policy.holds(row)
            &&& policy.knows(e.key)
        }),
{
    let rows = rows_of(policy.entries@, policy.probs@);
    assert(rows[i] == rows[i]);
    assert(rows.contains(rows[i]));
}

/// The keys of a policy ascend, and it knows exactly the keys of the rows that
/// it holds.
pub proof fn law_known_keys_have_rows(policy: CompactPolicy, key: u64, i: int, j: int)
    requires
        policy.wf(),
        0 <= i < j < policy.entries@.len(),
    ensures
        policy.entries@[i].key <= policy.entries@[j].key,
        policy.knows(key) <==> exists|row: Row| #[trigger] policy.holds(row) && row.key == key,
{
    let rows = rows_of(policy.entries@, policy.probs@);
    if policy.knows(key) {
        let k = choose|k: int|
            0 <= k < policy.entries@.len() && (#[trigger] policy.entries@[k]).key == key;
        assert(rows.contains(rows[k]));
        assert(policy.holds(rows[k]) && rows[k].key == key);
    }
    if exists|row: Row| #[trigger] policy.holds(row) && row.key == key {
        let row = choose|row: Row| #[trigger] policy.holds(row) && row.key == key;
        let k = choose|k: int| 0 <= k < rows.len() && rows[k] == row;
        assert(policy.entries@[k].key == key);
    }
}

proof fn lemma_rows_ignore_more(bytes: Seq<u8>, more: Seq<u8>, pos: int, count: nat)
    requires
        0 <= pos <= bytes.len(),
        rows_at(bytes, pos, count) is Ok,
    ensures
        rows_at(bytes + more, pos, count) == rows_at(bytes, pos, count),
    decreases count,
{
    if count > 0 {
        let all = bytes + more;
        assert forall|k: int| 0 <= k < bytes.len() implies all[k] == bytes[k] by {}
        let width = u64_at(bytes, pos + 8);
        assert(u64_at(all, pos) == u64_at(bytes, pos));
        assert(u64_at(all, pos + 8) == width);
        assert(row_at(all, pos + 16, width as nat) =~= row_at(bytes, pos + 16, width as nat));
        lemma_rows_ignore_more(bytes, more, pos + 16 + 4 * width, (count - 1) as nat);
    }
}

/// What follows the last entry of an artifact does not count.
pub proof fn law_bytes_after_the_rows_are_ignored(rows: Seq<Row>, more: Seq<u8>)
    requires
        rows.len() <= u64::MAX,
        forall|i: int| 0 <= i < rows.len() ==> (#[trigger] rows[i]).probs.len() <= 15,
    ensures
        artifact_rows(artifact_bytes(rows) + more) == Ok::<Seq<Row>, LoadError>(rows),
{
    let bytes = artifact_bytes(rows);
    law_artifact_round_trips(rows);
    let all = bytes + more;
    lemma_le_digits(rows.len(), bytes, 0);
    assert forall|k: int| 0 <= k < bytes.len() implies all[k] == bytes[k] by {}
    assert(u64_at(all, 0) == u64_at(bytes, 0));
    lemma_rows_ignore_more(bytes, more, 8, u64_at(bytes, 0) as nat);
}

/// A list's rows are its keys with their numbers, in its order.
pub proof fn law_lists_keep_their_rows(list: Seq<(u64, Vec<u32>)>, i: int)
    requires
        0 <= i < list.len(),
    ensures
        listed_rows(list).len() == list.len(),
        listed_rows(list)[i].key == list[i].0,
        listed_rows(list)[i].probs == list[i].1@,
{
}

} // verus!
