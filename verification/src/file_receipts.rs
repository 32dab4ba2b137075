//! Read receipts of the dedicated file tools.
//!
//! `read_file` records what it showed the model; `edit_file` and
//! `write_file` may only mutate a file whose current bytes match a receipt
//! from an earlier completion. The store is bounded in entries, in observed
//! ranges and in accounted bytes, and evicts the least recently used entry.
use crate::errors::FunctionCallError;
use crate::search::{find_from, first_match_from, lemma_first_match_from, match_starts, occurs_at};
use crate::ranges::{merge_ranges_exec, merge_sorted_ranges, sort_ranges, sort_ranges_exec};
use crate::text::chars_of;
use vstd::prelude::*;

verus! {

/// Most receipts kept at once.
pub const MAX_RECEIPTS: usize = 128;

/// Most observed line ranges in one receipt.
pub const MAX_RECEIPT_RANGES_PER_ENTRY: usize = 64;

/// Most observed line ranges over all receipts.
pub const MAX_RECEIPT_RANGES: usize = 1_024;

/// Most accounted bytes over all receipts.
pub const MAX_RECEIPT_BYTES: usize = 256 * 1024;

/// Identifies the file a receipt is for: the environment and the canonical path.
pub struct FileReceiptKey {
    pub environment_id: String,
    pub path: String,
}

/// What a completed `read_file` established about a file.
pub struct FileReceipt {
    pub fingerprint: [u8; 32],
    pub file_size: u64,
    pub modified_at_ms: i64,
    pub full_coverage: bool,
    pub write_eligible: bool,
    pub observed_ranges: Vec<(usize, usize)>,
    pub step_id: u64,
    pub last_used: u64,
    pub accounted_bytes: usize,
}

/// Abstract key: the two strings as character sequences.
pub struct KeyView {
    pub environment_id: Seq<char>,
    pub path: Seq<char>,
}

/// Abstract receipt.
pub struct ReceiptView {
    pub fingerprint: Seq<u8>,
    pub file_size: u64,
    pub modified_at_ms: i64,
    pub full_coverage: bool,
    pub write_eligible: bool,
    pub observed_ranges: Seq<(usize, usize)>,
    pub step_id: u64,
    pub last_used: u64,
    pub accounted_bytes: usize,
}

impl View for FileReceiptKey {
    type V = KeyView;

    open spec fn view(&self) -> KeyView {
        KeyView { environment_id: self.environment_id@, path: self.path@ }
    }
}

impl View for FileReceipt {
    type V = ReceiptView;

    open spec fn view(&self) -> ReceiptView {
        ReceiptView {
            fingerprint: self.fingerprint@,
            file_size: self.file_size,
            modified_at_ms: self.modified_at_ms,
            full_coverage: self.full_coverage,
            write_eligible: self.write_eligible,
            observed_ranges: self.observed_ranges@,
            step_id: self.step_id,
            last_used: self.last_used,
            accounted_bytes: self.accounted_bytes,
        }
    }
}

impl FileReceiptKey {
    /// A copy of the key.
    pub fn duplicate(&self) -> (r: Self)
        ensures
            r@ == self@,
    {
        FileReceiptKey { environment_id: self.environment_id.clone(), path: self.path.clone() }
    }

    /// Whether two keys name the same file in the same environment.
    pub fn same_as(&self, other: &Self) -> (r: bool)
        ensures
            r == (self@ == other@),
    {
        self.environment_id == other.environment_id && self.path == other.path
    }
}

/// A copy of a range list.
pub fn copy_ranges(v: &Vec<(usize, usize)>) -> (r: Vec<(usize, usize)>)
    ensures
        r@ == v@,
{
    let mut out: Vec<(usize, usize)> = Vec::new();
    let mut i: usize = 0;
    while i < v.len()
        invariant
            i <= v.len(),
            out@ == v@.take(i as int),
        decreases v.len() - i,
    {
        out.push(v[i]);
        assert(v@.take(i + 1) == v@.take(i as int).push(v@[i as int]));
        i += 1;
    }
    assert(v@.take(v.len() as int) == v@);
    out
}

/// `a` followed by the ranges of `b`.
pub fn concat_ranges(a: &Vec<(usize, usize)>, b: &Vec<(usize, usize)>) -> (r: Vec<(usize, usize)>)
    ensures
        r@ == a@ + b@,
{
    let mut out = copy_ranges(a);
    let mut i: usize = 0;
    while i < b.len()
        invariant
            i <= b.len(),
            out@ == a@ + b@.take(i as int),
        decreases b.len() - i,
    {
        out.push(b[i]);
        assert(b@.take(i + 1) == b@.take(i as int).push(b@[i as int]));
        i += 1;
    }
    assert(b@.take(b.len() as int) == b@);
    out
}

impl FileReceipt {
    /// A copy of the receipt.
    pub fn duplicate(&self) -> (r: Self)
        ensures
            r@ == self@,
    {
        FileReceipt {
            fingerprint: self.fingerprint,
            file_size: self.file_size,
            modified_at_ms: self.modified_at_ms,
            full_coverage: self.full_coverage,
            write_eligible: self.write_eligible,
            observed_ranges: copy_ranges(&self.observed_ranges),
            step_id: self.step_id,
            last_used: self.last_used,
            accounted_bytes: self.accounted_bytes,
        }
    }
}

/// Bytes charged to the store for one receipt: the key's UTF-8 text, the
/// receipt itself and its observed ranges.
pub open spec fn receipt_cost(key: KeyView, receipt: ReceiptView) -> nat {
    (vstd::utf8::encode_utf8(key.environment_id).len() as usize) as nat + (
    vstd::utf8::encode_utf8(key.path).len() as usize) as nat + vstd::layout::size_of::<FileReceipt>() + receipt.observed_ranges.len()
        * vstd::layout::size_of::<(usize, usize)>()
}

/// [`receipt_cost`], saturated at `usize::MAX`.
pub open spec fn receipt_cost_usize(key: KeyView, receipt: ReceiptView) -> usize {
    if receipt_cost(key, receipt) > usize::MAX {
        usize::MAX
    } else {
        receipt_cost(key, receipt) as usize
    }
}

/// One stored entry.
pub type Entry = (KeyView, ReceiptView);

/// Total observed ranges of the entries.
pub open spec fn sum_ranges(es: Seq<Entry>) -> nat
    decreases es.len(),
{
    if es.len() == 0 {
        0
    } else {
        sum_ranges(es.drop_last()) + es.last().1.observed_ranges.len()
    }
}

/// Total accounted bytes of the entries.
pub open spec fn sum_bytes(es: Seq<Entry>) -> nat
    decreases es.len(),
{
    if es.len() == 0 {
        0
    } else {
        sum_bytes(es.drop_last()) + es.last().1.accounted_bytes as nat
    }
}

/// The entries without the one for `k`.
pub open spec fn remove_key(es: Seq<Entry>, k: KeyView) -> Seq<Entry>
    decreases es.len(),
{
    if es.len() == 0 {
        es
    } else if es.last().0 == k {
        remove_key(es.drop_last(), k)
    } else {
        remove_key(es.drop_last(), k).push(es.last())
    }
}

/// The receipt stored for `k`, if any.
pub open spec fn lookup(es: Seq<Entry>, k: KeyView) -> Option<ReceiptView>
    decreases es.len(),
{
    if es.len() == 0 {
        None
    } else if es.last().0 == k {
        Some(es.last().1)
    } else {
        lookup(es.drop_last(), k)
    }
}

/// No key occurs twice.
pub open spec fn distinct_keys(es: Seq<Entry>) -> bool {
    forall|i: int, j: int| 0 <= i < j < es.len() ==> es[i].0 != es[j].0
}

/// Abstract store.
pub struct StoreView {
    pub entries: Seq<Entry>,
    pub next_access: u64,
    pub total_ranges: usize,
    pub total_bytes: usize,
}

/// The store's invariant: distinct keys, exact accounting, every bound
/// held, and no receipt used later than the last access.
pub open spec fn store_wf(s: StoreView) -> bool {
    &&& distinct_keys(s.entries)
    &&& s.entries.len() <= MAX_RECEIPTS
    &&& forall|i: int|
        0 <= i < s.entries.len() ==> {
            &&& #[trigger] s.entries[i].1.accounted_bytes == receipt_cost(
                s.entries[i].0,
                s.entries[i].1,
            )
            &&& s.entries[i].1.observed_ranges.len() <= MAX_RECEIPT_RANGES_PER_ENTRY
        }
    &&& s.total_ranges == sum_ranges(s.entries)
    &&& s.total_bytes == sum_bytes(s.entries)
    &&& s.total_ranges <= MAX_RECEIPT_RANGES
    &&& s.total_bytes <= MAX_RECEIPT_BYTES
    &&& forall|i: int| 0 <= i < s.entries.len() ==> (#[trigger] s.entries[i]).1.last_used <= s.next_access
}

/// Receipts of the dedicated file tools, with their bounded accounting.
pub struct FileToolState {
    receipts: Vec<(FileReceiptKey, FileReceipt)>,
    next_access: u64,
    total_ranges: usize,
    total_bytes: usize,
}

pub open spec fn entries_view(v: Seq<(FileReceiptKey, FileReceipt)>) -> Seq<Entry> {
    v.map_values(|e: (FileReceiptKey, FileReceipt)| (e.0@, e.1@))
}

impl View for FileToolState {
    type V = StoreView;

    closed spec fn view(&self) -> StoreView {
        StoreView {
            entries: entries_view(self.receipts@),
            next_access: self.next_access,
            total_ranges: self.total_ranges,
            total_bytes: self.total_bytes,
        }
    }
}

/// `x + 1`, saturated at `u64::MAX`.
pub open spec fn sat_inc(x: u64) -> u64 {
    if x == u64::MAX {
        x
    } else {
        (x + 1) as u64
    }
}

/// Removing the entry at `i` lowers each total by that entry's part.
pub proof fn lemma_sums_remove(es: Seq<Entry>, i: int)
    requires
        0 <= i < es.len(),
    ensures
        sum_ranges(es.remove(i)) + es[i].1.observed_ranges.len() == sum_ranges(es),
        sum_bytes(es.remove(i)) + es[i].1.accounted_bytes == sum_bytes(es),
    decreases es.len(),
{
    if i < es.len() - 1 {
        lemma_sums_remove(es.drop_last(), i);
        assert(es.remove(i).drop_last() == es.drop_last().remove(i));
    } else {
        assert(es.remove(i) == es.drop_last());
    }
}

/// Appending an entry raises each total by its part.
pub proof fn lemma_sums_push(es: Seq<Entry>, e: Entry)
    ensures
        sum_ranges(es.push(e)) == sum_ranges(es) + e.1.observed_ranges.len(),
        sum_bytes(es.push(e)) == sum_bytes(es) + e.1.accounted_bytes,
{
    assert(es.push(e).drop_last() == es);
}

/// Each entry's part is at most the total.
pub proof fn lemma_sums_bound(es: Seq<Entry>, i: int)
    requires
        0 <= i < es.len(),
    ensures
        es[i].1.observed_ranges.len() <= sum_ranges(es),
        es[i].1.accounted_bytes <= sum_bytes(es),
{
    lemma_sums_remove(es, i);
}

/// With distinct keys, dropping the key removes exactly the entry that holds
/// it, and looking the key up finds that entry.
pub proof fn lemma_remove_key(es: Seq<Entry>, k: KeyView)
    requires
        distinct_keys(es),
    ensures
        forall|i: int| 0 <= i < es.len() && es[i].0 == k ==> remove_key(es, k) == es.remove(i),
        (forall|i: int| 0 <= i < es.len() ==> es[i].0 != k) ==> remove_key(es, k) == es,
        forall|i: int| 0 <= i < es.len() && es[i].0 == k ==> lookup(es, k) == Some(es[i].1),
        (forall|i: int| 0 <= i < es.len() ==> es[i].0 != k) ==> lookup(es, k) is None,
{
    lemma_remove_key_shape(es, k);
    lemma_lookup(es, k);
}

proof fn lemma_lookup(es: Seq<Entry>, k: KeyView)
    requires
        distinct_keys(es),
    ensures
        forall|i: int| 0 <= i < es.len() && es[i].0 == k ==> lookup(es, k) == Some(es[i].1),
        (forall|i: int| 0 <= i < es.len() ==> es[i].0 != k) ==> lookup(es, k) is None,
    decreases es.len(),
{
    if es.len() > 0 {
        let d = es.drop_last();
        assert forall|a: int, b: int| 0 <= a < b < d.len() implies d[a].0 != d[b].0 by {
            assert(d[a] == es[a] && d[b] == es[b]);
        }
        lemma_lookup(d, k);
        assert forall|i: int| 0 <= i < es.len() && es[i].0 == k implies lookup(es, k) == Some(
            es[i].1,
        ) by {
            if i < es.len() - 1 {
                assert(d[i] == es[i]);
                assert(es.last().0 != es[i].0);
            }
        }
        if forall|i: int| 0 <= i < es.len() ==> es[i].0 != k {
            assert forall|i: int| 0 <= i < d.len() implies d[i].0 != k by {
                assert(d[i] == es[i]);
            }
            assert(es[es.len() - 1].0 != k);
        }
    }
}

proof fn lemma_remove_key_shape(es: Seq<Entry>, k: KeyView)
    requires
        distinct_keys(es),
    ensures
        forall|i: int| 0 <= i < es.len() && es[i].0 == k ==> remove_key(es, k) == es.remove(i),
        (forall|i: int| 0 <= i < es.len() ==> es[i].0 != k) ==> remove_key(es, k) == es,
    decreases es.len(),
{
    if es.len() > 0 {
        let d = es.drop_last();
        assert forall|a: int, b: int| 0 <= a < b < d.len() implies d[a].0 != d[b].0 by {
            assert(d[a] == es[a] && d[b] == es[b]);
        }
        lemma_remove_key_shape(d, k);
        assert forall|i: int| 0 <= i < es.len() && es[i].0 == k implies remove_key(es, k)
            == es.remove(i) by {
            if i == es.len() - 1 {
                assert forall|j: int| 0 <= j < d.len() implies d[j].0 != k by {
                    assert(es[j].0 != es[i].0);
                }
                assert(es.remove(i) == d);
            } else {
                assert(d[i] == es[i]);
                assert(es.last().0 != es[i].0);
                assert(es.remove(i) == d.remove(i).push(es.last()));
            }
        }
        if forall|i: int| 0 <= i < es.len() ==> es[i].0 != k {
            assert forall|i: int| 0 <= i < d.len() implies d[i].0 != k by {
                assert(d[i] == es[i]);
            }
            assert(es[es.len() - 1].0 != k);
            assert(d.push(es.last()) == es);
        }
    }
}

/// Index of the least recently used entry: the first one with the smallest
/// `last_used`.
pub open spec fn lru_index(es: Seq<Entry>) -> int
    decreases es.len(),
{
    if es.len() <= 1 {
        0
    } else {
        let j = lru_index(es.drop_last());
        if es.last().1.last_used < es[j].1.last_used {
            es.len() - 1
        } else {
            j
        }
    }
}

/// The least recently used entry is in range and no entry was used earlier.
pub proof fn lemma_lru_index(es: Seq<Entry>)
    requires
        es.len() > 0,
    ensures
        0 <= lru_index(es) < es.len(),
        forall|k: int| 0 <= k < es.len() ==> es[lru_index(es)].1.last_used <= #[trigger] es[k].1.last_used,
    decreases es.len(),
{
    if es.len() > 1 {
        let d = es.drop_last();
        lemma_lru_index(d);
        let j = lru_index(d);
        assert forall|k: int| 0 <= k < es.len() implies es[lru_index(es)].1.last_used
            <= #[trigger] es[k].1.last_used by {
            if k < es.len() - 1 {
                assert(d[k] == es[k]);
                assert(d[j].1.last_used <= d[k].1.last_used);
            }
        }
    }
}

/// A new receipt with `ranges` observed ranges and `bytes` accounted bytes
/// fits beside the entries.
pub open spec fn fits(es: Seq<Entry>, ranges: nat, bytes: nat) -> bool {
    &&& es.len() < MAX_RECEIPTS
    &&& sum_ranges(es) + ranges <= MAX_RECEIPT_RANGES
    &&& sum_bytes(es) + bytes <= MAX_RECEIPT_BYTES
}

/// The entries left after evicting least recently used entries until a new
/// receipt fits (or nothing is left).
pub open spec fn evict_until_fits(es: Seq<Entry>, ranges: nat, bytes: nat) -> Seq<Entry>
    decreases es.len(),
{
    if es.len() == 0 || fits(es, ranges, bytes) {
        es
    } else {
        proof {
            lemma_lru_index(es);
        }
        evict_until_fits(es.remove(lru_index(es)), ranges, bytes)
    }
}

/// The receipt as stored after an accepted insert.
pub open spec fn stored_receipt(key: KeyView, r: ReceiptView, access: u64) -> ReceiptView {
    ReceiptView { last_used: access, accounted_bytes: receipt_cost_usize(key, r), ..r }
}

pub open spec fn msg_too_many_ranges() -> Seq<char> {
    "too many observed ranges; read a larger contiguous range"@
}

pub open spec fn msg_receipt_too_large() -> Seq<char> {
    "file read receipt exceeds the bounded receipt store"@
}

pub open spec fn msg_store_full() -> Seq<char> {
    "file read receipt store is full; read a larger contiguous range or retry"@
}

proof fn lemma_entries_view_remove(v: Seq<(FileReceiptKey, FileReceipt)>, i: int)
    requires
        0 <= i < v.len(),
    ensures
        entries_view(v.remove(i)) == entries_view(v).remove(i),
{
    assert(entries_view(v.remove(i)) =~= entries_view(v).remove(i));
}

proof fn lemma_entries_view_push(v: Seq<(FileReceiptKey, FileReceipt)>, e: (FileReceiptKey, FileReceipt))
    ensures
        entries_view(v.push(e)) == entries_view(v).push((e.0@, e.1@)),
{
    assert(entries_view(v.push(e)) =~= entries_view(v).push((e.0@, e.1@)));
}

/// Distinctness survives removing an entry.
proof fn lemma_distinct_remove(es: Seq<Entry>, i: int)
    requires
        distinct_keys(es),
        0 <= i < es.len(),
    ensures
        distinct_keys(es.remove(i)),
{
    let r = es.remove(i);
    assert forall|a: int, b: int| 0 <= a < b < r.len() implies r[a].0 != r[b].0 by {
        let a2 = if a < i { a } else { a + 1 };
        let b2 = if b < i { b } else { b + 1 };
        assert(r[a] == es[a2]);
        assert(r[b] == es[b2]);
    }
}

/// Eviction keeps the invariant parts that concern the entries alone.
proof fn lemma_evict_wf(es: Seq<Entry>, ranges: nat, bytes: nat)
    requires
        distinct_keys(es),
        forall|i: int|
            0 <= i < es.len() ==> {
                &&& #[trigger] es[i].1.accounted_bytes == receipt_cost(es[i].0, es[i].1)
                &&& es[i].1.observed_ranges.len() <= MAX_RECEIPT_RANGES_PER_ENTRY
            },
    ensures
        distinct_keys(evict_until_fits(es, ranges, bytes)),
        forall|i: int|
            0 <= i < evict_until_fits(es, ranges, bytes).len() ==> {
                &&& #[trigger] evict_until_fits(es, ranges, bytes)[i].1.accounted_bytes
                    == receipt_cost(
                    evict_until_fits(es, ranges, bytes)[i].0,
                    evict_until_fits(es, ranges, bytes)[i].1,
                )
                &&& evict_until_fits(es, ranges, bytes)[i].1.observed_ranges.len()
                    <= MAX_RECEIPT_RANGES_PER_ENTRY
            },
        evict_until_fits(es, ranges, bytes).len() <= es.len(),
        sum_ranges(evict_until_fits(es, ranges, bytes)) <= sum_ranges(es),
        sum_bytes(evict_until_fits(es, ranges, bytes)) <= sum_bytes(es),
        forall|k: KeyView|
            #![trigger lookup(evict_until_fits(es, ranges, bytes), k)]
            lookup(es, k) is None ==> lookup(evict_until_fits(es, ranges, bytes), k) is None,
    decreases es.len(),
{
    if !(es.len() == 0 || fits(es, ranges, bytes)) {
        lemma_lru_index(es);
        let j = lru_index(es);
        let r = es.remove(j);
        lemma_distinct_remove(es, j);
        assert forall|i: int|
            0 <= i < r.len() implies {
            &&& #[trigger] r[i].1.accounted_bytes == receipt_cost(r[i].0, r[i].1)
            &&& r[i].1.observed_ranges.len() <= MAX_RECEIPT_RANGES_PER_ENTRY
        } by {
            let i2 = if i < j { i } else { i + 1 };
            assert(r[i] == es[i2]);
            assert(es[i2].1.accounted_bytes == receipt_cost(es[i2].0, es[i2].1));
        }
        lemma_sums_remove(es, j);
        lemma_evict_wf(r, ranges, bytes);
        assert forall|k: KeyView| lookup(es, k) is None implies lookup(r, k) is None by {
            lemma_remove_key(es, k);
            lemma_remove_key(r, k);
            if exists|i: int| 0 <= i < r.len() && r[i].0 == k {
                let i = choose|i: int| 0 <= i < r.len() && r[i].0 == k;
                let i2 = if i < j { i } else { i + 1 };
                assert(r[i] == es[i2]);
            }
        }
    }
}

impl FileToolState {
    /// The store's invariant.
    pub open spec fn wf(&self) -> bool {
        store_wf(self@)
    }

    /// An empty store.
    pub fn new() -> (r: Self)
        ensures
            r.wf(),
            r@.entries.len() == 0,
            r@.next_access == 0,
    {
        let r = FileToolState { receipts: Vec::new(), next_access: 0, total_ranges: 0, total_bytes: 0 };
        assert(r@.entries =~= Seq::<Entry>::empty());
        r
    }

    /// Number of stored receipts.
    pub fn len(&self) -> (r: usize)
        ensures
            r == self@.entries.len(),
    {
        self.receipts.len()
    }

    /// Total observed ranges over all receipts.
    pub fn total_ranges(&self) -> (r: usize)
        ensures
            r == self@.total_ranges,
    {
        self.total_ranges
    }

    /// Total accounted bytes over all receipts.
    pub fn total_bytes(&self) -> (r: usize)
        ensures
            r == self@.total_bytes,
    {
        self.total_bytes
    }

    /// Index of the entry for `key`.
    fn find_index(&self, key: &FileReceiptKey) -> (r: Option<usize>)
        ensures
            match r {
                Some(i) => i < self@.entries.len() && self@.entries[i as int].0 == key@,
                None => forall|i: int| 0 <= i < self@.entries.len() ==> self@.entries[i].0 != key@,
            },
    {
        let mut i: usize = 0;
        while i < self.receipts.len()
            invariant
                i <= self.receipts.len(),
                self@.entries == entries_view(self.receipts@),
                forall|j: int| 0 <= j < i ==> self@.entries[j].0 != key@,
            decreases self.receipts.len() - i,
        {
            if self.receipts[i].0.same_as(key) {
                return Some(i);
            }
            i += 1;
        }
        None
    }

    /// Whether a receipt is stored for `key`.
    pub fn contains_key(&self, key: &FileReceiptKey) -> (r: bool)
        requires
            self.wf(),
        ensures
            r == (lookup(self@.entries, key@) is Some),
    {
        proof {
            lemma_remove_key(self@.entries, key@);
        }
        self.find_index(key).is_some()
    }

    /// Index of the least recently used entry.
    fn lru_position(&self) -> (r: usize)
        requires
            self.receipts.len() > 0,
        ensures
            r == lru_index(self@.entries),
    {
        let ghost es = self@.entries;
        let mut best: usize = 0;
        let mut i: usize = 1;
        while i < self.receipts.len()
            invariant
                1 <= i <= self.receipts.len(),
                es == entries_view(self.receipts@),
                best == lru_index(es.take(i as int)),
                best < i,
            decreases self.receipts.len() - i,
        {
            assert(es.take(i + 1).drop_last() == es.take(i as int));
            if self.receipts[i].1.last_used < self.receipts[best].1.last_used {
                best = i;
            }
            i += 1;
        }
        assert(es.take(self.receipts.len() as int) == es);
        best
    }

    /// Removes the entry at `i`, adjusting the totals.
    fn remove_at(&mut self, i: usize)
        requires
            i < old(self)@.entries.len(),
            distinct_keys(old(self)@.entries),
            old(self)@.total_ranges == sum_ranges(old(self)@.entries),
            old(self)@.total_bytes == sum_bytes(old(self)@.entries),
        ensures
            final(self)@.entries == old(self)@.entries.remove(i as int),
            final(self)@.next_access == old(self)@.next_access,
            final(self)@.total_ranges == sum_ranges(final(self)@.entries),
            final(self)@.total_bytes == sum_bytes(final(self)@.entries),
    {
        proof {
            lemma_sums_remove(self@.entries, i as int);
            lemma_entries_view_remove(self.receipts@, i as int);
        }
        let (_, removed) = self.receipts.remove(i);
        self.total_ranges = self.total_ranges - removed.observed_ranges.len();
        self.total_bytes = self.total_bytes - removed.accounted_bytes;
    }

    /// Drops the receipt for `key`, if one is stored.
    pub fn remove_receipt(&mut self, key: &FileReceiptKey)
        requires
            old(self).wf(),
        ensures
            final(self).wf(),
            final(self)@.entries == remove_key(old(self)@.entries, key@),
            final(self)@.next_access == old(self)@.next_access,
    {
        proof {
            lemma_remove_key(self@.entries, key@);
        }
        match self.find_index(key) {
            None => {},
            Some(i) => {
                let ghost before = self@.entries;
                self.remove_at(i);
                proof {
                    lemma_distinct_remove(before, i as int);
                    lemma_sums_bound(before, i as int);
                    assert forall|j: int|
                        0 <= j < self@.entries.len() implies {
                        &&& #[trigger] self@.entries[j].1.accounted_bytes == receipt_cost(
                            self@.entries[j].0,
                            self@.entries[j].1,
                        )
                        &&& self@.entries[j].1.observed_ranges.len() <= MAX_RECEIPT_RANGES_PER_ENTRY
                    } by {
                        let j2 = if j < i { j } else { j + 1 };
                        assert(self@.entries[j] == before[j2]);
                        assert(before[j2].1.accounted_bytes == receipt_cost(before[j2].0, before[j2].1));
                    }
                    lemma_sums_remove(before, i as int);
                    assert(distinct_keys(self@.entries));
                    assert(self@.entries.len() <= MAX_RECEIPTS);
                    assert(self@.total_ranges <= MAX_RECEIPT_RANGES);
                    assert(self@.total_bytes <= MAX_RECEIPT_BYTES);
                }
            },
        }
    }
}


/// Bytes charged to the store for `receipt` under `key`.
pub fn receipt_accounted_bytes(key: &FileReceiptKey, receipt: &FileReceipt) -> (r: usize)
    ensures
        r == receipt_cost_usize(key@, receipt@),
{
    let env = key.environment_id.as_str().len();
    let path = key.path.as_str().len();
    let base = std::mem::size_of::<FileReceipt>();
    let per_range = std::mem::size_of::<(usize, usize)>();
    let ranges = match receipt.observed_ranges.len().checked_mul(per_range) {
        Some(x) => x,
        None => usize::MAX,
    };
    env.saturating_add(path).saturating_add(base).saturating_add(ranges)
}

/// The error that storing receipt `rc` under `key` reports, if any: too
/// many observed ranges, or too many accounted bytes.
pub open spec fn insert_error(key: KeyView, rc: ReceiptView) -> Option<Seq<char>> {
    if rc.observed_ranges.len() > MAX_RECEIPT_RANGES_PER_ENTRY {
        Some(msg_too_many_ranges())
    } else if receipt_cost(key, rc) > MAX_RECEIPT_BYTES {
        Some(msg_receipt_too_large())
    } else {
        None
    }
}

/// What storing receipt `rc` under `key` does to store `old`, giving `new`:
/// a receipt with too many ranges drops the key's old receipt; one too large
/// changes nothing; any other replaces the key's receipt after evicting
/// least recently used receipts until the bounds hold.
pub open spec fn insert_effect(old: StoreView, new: StoreView, key: KeyView, rc: ReceiptView) -> bool {
    if rc.observed_ranges.len() > MAX_RECEIPT_RANGES_PER_ENTRY {
        &&& new.entries == remove_key(old.entries, key)
        &&& new.next_access == old.next_access
    } else if receipt_cost(key, rc) > MAX_RECEIPT_BYTES {
        new == old
    } else {
        &&& new.next_access == sat_inc(old.next_access)
        &&& new.entries == evict_until_fits(
            remove_key(old.entries, key),
            rc.observed_ranges.len(),
            receipt_cost(key, rc),
        ).push((key, stored_receipt(key, rc, new.next_access)))
    }
}

/// `r` reports the error `m` (`None`: success).
pub open spec fn reports(r: Result<(), FunctionCallError>, m: Option<Seq<char>>) -> bool {
    match m {
        Some(msg) => r matches Err(e) && e.message_view() == msg,
        None => r is Ok,
    }
}

/// Storing `rc` under `key` turns `old` into `new` with result `r`.
pub open spec fn insert_outcome(
    old: StoreView,
    new: StoreView,
    key: KeyView,
    rc: ReceiptView,
    r: Result<(), FunctionCallError>,
) -> bool {
    insert_effect(old, new, key, rc) && reports(r, insert_error(key, rc))
}

impl FileToolState {
    /// Stores `receipt` for `key`, replacing any earlier receipt for the same
    /// file and evicting least recently used receipts until the bounds hold.
    pub fn insert_receipt(&mut self, key: FileReceiptKey, receipt: FileReceipt) -> (r: Result<
        (),
        FunctionCallError,
    >)
        requires
            old(self).wf(),
        ensures
            final(self).wf(),
            insert_outcome(old(self)@, final(self)@, key@, receipt@, r),
    {
        let mut receipt = receipt;
        if receipt.observed_ranges.len() > MAX_RECEIPT_RANGES_PER_ENTRY {
            self.remove_receipt(&key);
            return Err(FunctionCallError::respond(
                "too many observed ranges; read a larger contiguous range",
            ));
        }
        let accounted = receipt_accounted_bytes(&key, &receipt);
        if accounted > MAX_RECEIPT_BYTES {
            return Err(FunctionCallError::respond(
                "file read receipt exceeds the bounded receipt store",
            ));
        }
        self.remove_receipt(&key);
        let range_count = receipt.observed_ranges.len();
        let ghost start = self@.entries;
        let ghost target = evict_until_fits(start, range_count as nat, accounted as nat);
        let ghost original = receipt@;
        proof {
            let o = old(self)@.entries;
            lemma_remove_key(o, key@);
            if exists|i: int| 0 <= i < o.len() && o[i].0 == key@ {
                let i = choose|i: int| 0 <= i < o.len() && o[i].0 == key@;
                lemma_remove_key_absent(o, key@, i);
            }
        }
        while (self.receipts.len() >= MAX_RECEIPTS || self.total_ranges.saturating_add(range_count)
            > MAX_RECEIPT_RANGES || self.total_bytes.saturating_add(accounted) > MAX_RECEIPT_BYTES)
            && self.receipts.len() > 0
            invariant
                self.wf(),
                range_count <= MAX_RECEIPT_RANGES_PER_ENTRY,
                accounted <= MAX_RECEIPT_BYTES,
                evict_until_fits(self@.entries, range_count as nat, accounted as nat) == target,
                lookup(self@.entries, key@) is None,
                self@.next_access == old(self)@.next_access,
            decreases self.receipts.len(),
        {
            let j = self.lru_position();
            let ghost before = self@.entries;
            proof {
                lemma_lru_index(before);
            }
            self.remove_at(j);
            proof {
                lemma_distinct_remove(before, j as int);
                lemma_sums_remove(before, j as int);
                assert forall|x: int|
                    0 <= x < self@.entries.len() implies {
                    &&& #[trigger] self@.entries[x].1.accounted_bytes == receipt_cost(
                        self@.entries[x].0,
                        self@.entries[x].1,
                    )
                    &&& self@.entries[x].1.observed_ranges.len() <= MAX_RECEIPT_RANGES_PER_ENTRY
                } by {
                    let x2 = if x < j { x } else { x + 1 };
                    assert(self@.entries[x] == before[x2]);
                    assert(before[x2].1.accounted_bytes == receipt_cost(before[x2].0, before[x2].1));
                }
                lemma_remove_key(before, key@);
                lemma_remove_key(self@.entries, key@);
                if exists|x: int| 0 <= x < self@.entries.len() && self@.entries[x].0 == key@ {
                    let x = choose|x: int| 0 <= x < self@.entries.len() && self@.entries[x].0 == key@;
                    let x2 = if x < j { x } else { x + 1 };
                    assert(self@.entries[x] == before[x2]);
                }
            }
        }
        assert(evict_until_fits(self@.entries, range_count as nat, accounted as nat) == self@.entries);
        if self.receipts.len() >= MAX_RECEIPTS || self.total_ranges.saturating_add(range_count)
            > MAX_RECEIPT_RANGES || self.total_bytes.saturating_add(accounted) > MAX_RECEIPT_BYTES {
            return Err(FunctionCallError::respond(
                "file read receipt store is full; read a larger contiguous range or retry",
            ));
        }
        self.next_access = self.next_access.saturating_add(1);
        receipt.last_used = self.next_access;
        receipt.accounted_bytes = accounted;
        self.total_ranges = self.total_ranges + range_count;
        self.total_bytes = self.total_bytes + accounted;
        let ghost before = self@.entries;
        let ghost new_entry = (key@, receipt@);
        proof {
            lemma_sums_push(before, new_entry);
            lemma_entries_view_push(self.receipts@, (key, receipt));
            lemma_remove_key(before, key@);
        }
        self.receipts.push((key, receipt));
        proof {
            let es = self@.entries;
            assert(es == before.push(new_entry));
            assert(new_entry.1 == stored_receipt(key@, original, self.next_access));
            assert(accounted as nat == receipt_cost(key@, original));
            assert(start == remove_key(old(self)@.entries, key@));
            assert(before == target);
            assert(es == evict_until_fits(
                remove_key(old(self)@.entries, key@),
                original.observed_ranges.len(),
                receipt_cost(key@, original),
            ).push((key@, stored_receipt(key@, original, self.next_access))));
            assert forall|a: int, b: int| 0 <= a < b < es.len() implies es[a].0 != es[b].0 by {
                if b == es.len() - 1 {
                    assert(before[a].0 != new_entry.0);
                } else {
                    assert(es[a] == before[a]);
                    assert(es[b] == before[b]);
                }
            }
            assert forall|x: int|
                0 <= x < es.len() implies {
                &&& #[trigger] es[x].1.accounted_bytes == receipt_cost(es[x].0, es[x].1)
                &&& es[x].1.observed_ranges.len() <= MAX_RECEIPT_RANGES_PER_ENTRY
            } by {
                if x < es.len() - 1 {
                    assert(es[x] == before[x]);
                    assert(before[x].1.accounted_bytes == receipt_cost(before[x].0, before[x].1));
                }
            }
        }
        Ok(())
    }
}

/// A key that occurs is gone after removing it.
proof fn lemma_remove_key_absent(es: Seq<Entry>, k: KeyView, i: int)
    requires
        distinct_keys(es),
        0 <= i < es.len(),
        es[i].0 == k,
    ensures
        lookup(remove_key(es, k), k) is None,
{
    lemma_remove_key(es, k);
    let r = es.remove(i);
    lemma_distinct_remove(es, i);
    assert forall|j: int| 0 <= j < r.len() implies r[j].0 != k by {
        let j2 = if j < i { j } else { j + 1 };
        assert(r[j] == es[j2]);
    }
    lemma_remove_key(r, k);
}

/// SHA-256 digest of `data` as computed by the `sha2` crate.
pub uninterp spec fn sha256_digest(data: Seq<u8>) -> Seq<u8>;

/// Content fingerprint of raw file bytes: `sha2::Sha256::digest`.
///
/// Trusted: the result is the crate's SHA-256 digest of exactly `bytes`; the
/// digest itself is not computed here.
#[verifier::external_body]
pub fn fingerprint(bytes: &[u8]) -> (r: [u8; 32])
    ensures
        r@ == sha256_digest(bytes@),
{
    <sha2::Sha256 as sha2::Digest>::digest(bytes).into()
}

/// Whether two fingerprints are equal.
pub fn same_fingerprint(a: &[u8; 32], b: &[u8; 32]) -> (r: bool)
    ensures
        r == (a@ == b@),
{
    let mut i: usize = 0;
    while i < 32
        invariant
            i <= 32,
            a@.len() == 32,
            b@.len() == 32,
            forall|j: int| 0 <= j < i ==> a@[j] == b@[j],
        decreases 32 - i,
    {
        if a[i] != b[i] {
            return false;
        }
        i += 1;
    }
    assert(a@ =~= b@);
    true
}

/// File metadata as reported by the executor's filesystem.
pub struct FileMetadata {
    pub is_directory: bool,
    pub is_file: bool,
    pub is_symlink: bool,
    pub size: u64,
    pub created_at_ms: i64,
    pub modified_at_ms: i64,
}

/// The entries with the receipt for `k` replaced by `v`.
pub open spec fn update_key(es: Seq<Entry>, k: KeyView, v: ReceiptView) -> Seq<Entry>
    decreases es.len(),
{
    if es.len() == 0 {
        es
    } else if es.last().0 == k {
        update_key(es.drop_last(), k, v).push((k, v))
    } else {
        update_key(es.drop_last(), k, v).push(es.last())
    }
}

/// With distinct keys, replacing the receipt for a key changes exactly its entry.
pub proof fn lemma_update_key(es: Seq<Entry>, k: KeyView, v: ReceiptView, i: int)
    requires
        distinct_keys(es),
        0 <= i < es.len(),
        es[i].0 == k,
    ensures
        update_key(es, k, v) == es.update(i, (k, v)),
    decreases es.len(),
{
    let d = es.drop_last();
    if i == es.len() - 1 {
        assert forall|j: int| 0 <= j < d.len() implies d[j].0 != k by {
            assert(es[j].0 != es[i].0);
        }
        lemma_update_key_absent(d, k, v);
        assert(es.update(i, (k, v)) == d.push((k, v)));
    } else {
        assert(d[i] == es[i]);
        assert(es.last().0 != es[i].0);
        lemma_update_key(d, k, v, i);
        assert(es.update(i, (k, v)) == d.update(i, (k, v)).push(es.last()));
    }
}

proof fn lemma_update_key_absent(es: Seq<Entry>, k: KeyView, v: ReceiptView)
    requires
        forall|j: int| 0 <= j < es.len() ==> es[j].0 != k,
    ensures
        update_key(es, k, v) == es,
    decreases es.len(),
{
    if es.len() > 0 {
        let d = es.drop_last();
        assert forall|j: int| 0 <= j < d.len() implies d[j].0 != k by {
            assert(d[j] == es[j]);
        }
        lemma_update_key_absent(d, k, v);
        assert(d.push(es.last()) == es);
    }
}

pub open spec fn msg_read_required_before_mutation() -> Seq<char> {
    "read_file is required before editing or overwriting this file"@
}

pub open spec fn msg_separate_completions() -> Seq<char> {
    "read_file and dependent mutation must be issued in separate completions"@
}

pub open spec fn msg_complete_read_required() -> Seq<char> {
    "a complete read is required before overwriting this file"@
}

pub open spec fn msg_content_and_metadata_changed() -> Seq<char> {
    "file content and metadata changed since read_file; read it again before editing"@
}

pub open spec fn msg_file_changed() -> Seq<char> {
    "file changed since read_file; read it again before editing"@
}

/// What validating a mutation against the stored receipt decides: the error
/// message, or the receipt as refreshed on success.
pub open spec fn receipt_check(
    stored: Option<ReceiptView>,
    digest: Seq<u8>,
    size: u64,
    modified_at_ms: i64,
    step_id: u64,
    require_full: bool,
    access: u64,
) -> Result<ReceiptView, Seq<char>> {
    match stored {
        None => Err(msg_read_required_before_mutation()),
        Some(rc) => if rc.step_id == step_id {
            Err(msg_separate_completions())
        } else if require_full && (!rc.full_coverage || !rc.write_eligible) {
            Err(msg_complete_read_required())
        } else if rc.file_size != size || rc.fingerprint != digest {
            if rc.modified_at_ms != modified_at_ms {
                Err(msg_content_and_metadata_changed())
            } else {
                Err(msg_file_changed())
            }
        } else {
            Ok(ReceiptView { modified_at_ms: modified_at_ms, last_used: access, ..rc })
        },
    }
}

impl FileToolState {
    /// Checks that a mutation of the file under `key` follows a matching read:
    /// in an earlier completion, complete when `require_full`, and of exactly
    /// the bytes now on disk. Records the access in any case.
    #[verifier::spinoff_prover]
    #[verifier::rlimit(40)]
    pub fn validate_receipt(
        &mut self,
        key: &FileReceiptKey,
        bytes: &[u8],
        metadata: &FileMetadata,
        step_id: u64,
        require_full: bool,
    ) -> (r: Result<(), FunctionCallError>)
        requires
            old(self).wf(),
        ensures
            final(self).wf(),
            final(self)@.next_access == sat_inc(old(self)@.next_access),
            final(self)@.total_ranges == old(self)@.total_ranges,
            final(self)@.total_bytes == old(self)@.total_bytes,
            match receipt_check(
                lookup(old(self)@.entries, key@),
                sha256_digest(bytes@),
                metadata.size,
                metadata.modified_at_ms,
                step_id,
                require_full,
                final(self)@.next_access,
            ) {
                Err(m) => r matches Err(e) && e.message_view() == m && final(self)@.entries
                    == old(self)@.entries,
                Ok(v) => r is Ok && final(self)@.entries == update_key(
                    old(self)@.entries,
                    key@,
                    v,
                ),
            },
    {
        self.next_access = self.next_access.saturating_add(1);
        let access = self.next_access;
        proof {
            lemma_remove_key(self@.entries, key@);
        }
        let i = match self.find_index(key) {
            None => {
                return Err(FunctionCallError::respond(
                    "read_file is required before editing or overwriting this file",
                ));
            },
            Some(i) => i,
        };
        let receipt = &self.receipts[i].1;
        if receipt.step_id == step_id {
            return Err(FunctionCallError::respond(
                "read_file and dependent mutation must be issued in separate completions",
            ));
        }
        if require_full && (!receipt.full_coverage || !receipt.write_eligible) {
            return Err(FunctionCallError::respond(
                "a complete read is required before overwriting this file",
            ));
        }
        let metadata_changed = receipt.modified_at_ms != metadata.modified_at_ms;
        let digest = fingerprint(bytes);
        if receipt.file_size != metadata.size || !same_fingerprint(&receipt.fingerprint, &digest) {
            if metadata_changed {
                return Err(FunctionCallError::respond(
                    "file content and metadata changed since read_file; read it again before editing",
                ));
            } else {
                return Err(FunctionCallError::respond(
                    "file changed since read_file; read it again before editing",
                ));
            }
        }
        let updated = FileReceipt {
            modified_at_ms: metadata.modified_at_ms,
            last_used: access,
            ..receipt.duplicate()
        };
        let entry_key = self.receipts[i].0.duplicate();
        let ghost before = self.receipts@;
        let ghost new_entry = (entry_key, updated);
        self.receipts.set(i, (entry_key, updated));
        proof {
            let es = self@.entries;
            assert(es == entries_view(before).update(i as int, (new_entry.0@, new_entry.1@)));
            let o = entries_view(before);
            lemma_update_key(o, key@, new_entry.1@, i as int);
            assert forall|a: int, b: int| 0 <= a < b < es.len() implies es[a].0 != es[b].0 by {
                assert(es[a].0 == o[a].0);
                assert(es[b].0 == o[b].0);
            }
            assert forall|x: int|
                0 <= x < es.len() implies {
                &&& #[trigger] es[x].1.accounted_bytes == receipt_cost(es[x].0, es[x].1)
                &&& es[x].1.observed_ranges.len() <= MAX_RECEIPT_RANGES_PER_ENTRY
            } by {
                assert(o[x].1.accounted_bytes == receipt_cost(o[x].0, o[x].1));
            }
            lemma_sums_update(o, i as int, (new_entry.0@, new_entry.1@));
        }
        Ok(())
    }
}

/// Replacing an entry by one with the same counted parts keeps the totals.
proof fn lemma_sums_update(es: Seq<Entry>, i: int, e: Entry)
    requires
        0 <= i < es.len(),
        e.1.observed_ranges.len() == es[i].1.observed_ranges.len(),
        e.1.accounted_bytes == es[i].1.accounted_bytes,
    ensures
        sum_ranges(es.update(i, e)) == sum_ranges(es),
        sum_bytes(es.update(i, e)) == sum_bytes(es),
{
    lemma_sums_remove(es, i);
    lemma_sums_remove(es.update(i, e), i);
    assert(es.update(i, e).remove(i) == es.remove(i));
}

/// Number of line feeds in `s`.
pub open spec fn count_nl(s: Seq<char>) -> nat
    decreases s.len(),
{
    if s.len() == 0 {
        0
    } else {
        count_nl(s.drop_last()) + if s.last() == '\n' {
            1nat
        } else {
            0nat
        }
    }
}

/// Line feeds add up over concatenation.
pub proof fn lemma_count_nl_concat(a: Seq<char>, b: Seq<char>)
    ensures
        count_nl(a + b) == count_nl(a) + count_nl(b),
    decreases b.len(),
{
    if b.len() > 0 {
        lemma_count_nl_concat(a, b.drop_last());
        assert((a + b).drop_last() == a + b.drop_last());
    } else {
        assert(a + b == a);
    }
}

/// Number of line feeds in `v[from..to]`.
pub fn count_newlines_in(v: &Vec<char>, from: usize, to: usize) -> (r: usize)
    requires
        from <= to <= v@.len(),
    ensures
        r == count_nl(v@.subrange(from as int, to as int)),
        r <= to - from,
{
    let mut n: usize = 0;
    let mut k = from;
    while k < to
        invariant
            from <= k <= to <= v@.len(),
            n == count_nl(v@.subrange(from as int, k as int)),
            n <= k - from,
        decreases to - k,
    {
        assert(v@.subrange(from as int, k + 1).drop_last() == v@.subrange(from as int, k as int));
        if v[k] == '\n' {
            n += 1;
        }
        k += 1;
    }
    n
}

/// Where `old_string` may be replaced in `text`: the starts of its
/// non-overlapping matches; an empty pattern matches at every position.
pub open spec fn match_positions(text: Seq<char>, pat: Seq<char>) -> Seq<int> {
    if pat.len() == 0 {
        Seq::new((text.len() + 1) as nat, |i: int| i)
    } else {
        match_starts(text, pat, 0)
    }
}

/// 1-based line on which a match at `m` starts.
pub open spec fn match_first_line(text: Seq<char>, m: int) -> int {
    count_nl(text.take(m)) as int + 1
}

/// 1-based line on which a match of `pat` at `m` ends, counted as `str::lines`
/// counts rows (a line feed at the very end adds no row).
pub open spec fn match_last_line(text: Seq<char>, pat: Seq<char>, m: int) -> int {
    let line = match_first_line(text, m);
    let nl = count_nl(pat);
    if nl == 0 {
        line
    } else if pat.last() == '\n' && m + pat.len() == text.len() {
        line + nl - 1
    } else {
        line + nl
    }
}

/// Some observed range holds lines `first..=last`.
pub open spec fn ranges_cover(ranges: Seq<(usize, usize)>, first: int, last: int) -> bool {
    exists|j: int| 0 <= j < ranges.len() && ranges[j].0 <= first && last <= ranges[j].1
}

/// Every match of `pat` in `text` lies inside an observed range.
pub open spec fn matches_observed(text: Seq<char>, pat: Seq<char>, ranges: Seq<(usize, usize)>) -> bool {
    forall|q: int|
        0 <= q < match_positions(text, pat).len() ==> ranges_cover(
            ranges,
            match_first_line(text, #[trigger] match_positions(text, pat)[q]),
            match_last_line(text, pat, match_positions(text, pat)[q]),
        )
}

/// Whether some range holds lines `first..=last`.
pub fn ranges_cover_exec(ranges: &Vec<(usize, usize)>, first: usize, last: usize) -> (r: bool)
    ensures
        r == ranges_cover(ranges@, first as int, last as int),
{
    let mut j: usize = 0;
    while j < ranges.len()
        invariant
            j <= ranges.len(),
            forall|x: int| 0 <= x < j ==> !(ranges@[x].0 <= first && last <= ranges@[x].1),
        decreases ranges.len() - j,
    {
        if ranges[j].0 <= first && last <= ranges[j].1 {
            return true;
        }
        j += 1;
    }
    false
}

/// Lines spanned by a match at `m`, as [`match_first_line`] and [`match_last_line`].
fn match_lines(t: &Vec<char>, p: &Vec<char>, m: usize, nl_before: usize, nl_pat: usize) -> (r: (
    usize,
    usize,
))
    requires
        m + p@.len() <= t@.len(),
        t@.len() + p@.len() < usize::MAX,
        nl_before == count_nl(t@.take(m as int)),
        nl_before <= m,
        nl_pat == count_nl(p@),
        nl_pat <= p@.len(),
    ensures
        r.0 == match_first_line(t@, m as int),
        r.1 == match_last_line(t@, p@, m as int),
{
    let line = nl_before + 1;
    let end = if nl_pat == 0 {
        line
    } else if p[p.len() - 1] == '\n' && m + p.len() == t.len() {
        line + nl_pat - 1
    } else {
        line + nl_pat
    };
    (line, end)
}

pub proof fn lemma_count_nl_bound(s: Seq<char>)
    ensures
        count_nl(s) <= s.len(),
    decreases s.len(),
{
    if s.len() > 0 {
        lemma_count_nl_bound(s.drop_last());
    }
}

/// Whether every match of `pat` in `text` lies inside an observed range.
pub fn matches_observed_exec(text: &Vec<char>, pat: &Vec<char>, ranges: &Vec<(usize, usize)>) -> (r:
    bool)
    requires
        text@.len() + pat@.len() < usize::MAX,
    ensures
        r == matches_observed(text@, pat@, ranges@),
{
    let ghost positions = match_positions(text@, pat@);
    proof {
        lemma_count_nl_bound(pat@);
    }
    let nl_pat = count_newlines_in(pat, 0, pat.len());
    assert(pat@.subrange(0, pat@.len() as int) == pat@);
    if pat.len() == 0 {
        let mut m: usize = 0;
        let mut nl_before: usize = 0;
        while m <= text.len()
            invariant
                pat@.len() == 0,
                nl_pat == 0,
                m <= text@.len() + 1,
                text@.len() < usize::MAX,
                m <= text@.len() ==> nl_before == count_nl(text@.take(m as int)),
                nl_before <= m,
                positions == match_positions(text@, pat@),
                forall|q: int|
                    0 <= q < m ==> ranges_cover(
                        ranges@,
                        match_first_line(text@, #[trigger] positions[q]),
                        match_last_line(text@, pat@, positions[q]),
                    ),
            decreases text@.len() + 1 - m,
        {
            let (first, last) = match_lines(text, pat, m, nl_before, nl_pat);
            assert(positions[m as int] == m);
            if !ranges_cover_exec(ranges, first, last) {
                return false;
            }
            if m < text.len() {
                assert(text@.take(m + 1) == text@.take(m as int) + text@.subrange(
                    m as int,
                    m + 1,
                ));
                proof {
                    lemma_count_nl_concat(text@.take(m as int), text@.subrange(m as int, m + 1));
                }
                let add = count_newlines_in(text, m, m + 1);
                nl_before = nl_before + add;
            }
            m += 1;
        }
        return true;
    }
    let mut pos: usize = 0;
    let mut nl_before: usize = 0;
    let ghost mut done: Seq<int> = Seq::empty();
    assert(text@.take(0) =~= Seq::<char>::empty());
    loop
        invariant
            pat@.len() > 0,
            nl_pat == count_nl(pat@),
            nl_pat <= pat@.len(),
            text@.len() + pat@.len() < usize::MAX,
            pos <= text@.len(),
            nl_before == count_nl(text@.take(pos as int)),
            nl_before <= pos,
            positions == match_positions(text@, pat@),
            done + match_starts(text@, pat@, pos as int) == positions,
            forall|q: int|
                0 <= q < done.len() ==> ranges_cover(
                    ranges@,
                    match_first_line(text@, #[trigger] done[q]),
                    match_last_line(text@, pat@, done[q]),
                ),
        decreases text@.len() - pos,
    {
        match find_from(text, pat, pos) {
            None => {
                assert(match_starts(text@, pat@, pos as int) =~= Seq::<int>::empty());
                assert(done == positions);
                return true;
            },
            Some(i) => {
                proof {
                    lemma_first_match_from(text@, pat@, pos as int);
                    lemma_count_nl_concat(text@.take(pos as int), text@.subrange(pos as int, i as int));
                    assert(text@.take(i as int) == text@.take(pos as int) + text@.subrange(pos as int, i as int));
                }
                let between = count_newlines_in(text, pos, i);
                let nl_i = nl_before + between;
                let (first, last) = match_lines(text, pat, i, nl_i, nl_pat);
                proof {
                    assert(match_starts(text@, pat@, pos as int) == seq![i as int] + match_starts(
                        text@,
                        pat@,
                        i + pat@.len(),
                    ));
                    assert(positions == (done + seq![i as int]) + match_starts(text@, pat@, i + pat@.len()));
                }
                if !ranges_cover_exec(ranges, first, last) {
                    proof {
                        assert(positions[done.len() as int] == i as int);
                    }
                    return false;
                }
                proof {
                    done = done.push(i as int);
                    let sub = text@.subrange(i as int, i + pat@.len());
                    assert(sub == pat@);
                    lemma_count_nl_concat(text@.take(i as int), sub);
                    assert(text@.take(i + pat@.len()) == text@.take(i as int) + sub);
                    lemma_count_nl_bound(text@.take(i as int));
                }
                nl_before = nl_i + nl_pat;
                pos = i + pat.len();
            },
        }
    }
}

pub open spec fn msg_read_required_before_edit() -> Seq<char> {
    "read_file is required before editing this file"@
}

pub open spec fn msg_outside_observed_range() -> Seq<char> {
    "the replacement is outside the observed read range; read that range again"@
}

/// The error that checking an edit of `pat` in `text` against the observed
/// ranges of the receipt under `key` reports, if any.
pub open spec fn observed_ranges_error(
    old: StoreView,
    key: KeyView,
    text: Seq<char>,
    pat: Seq<char>,
) -> Option<Seq<char>> {
    match lookup(old.entries, key) {
        None => Some(msg_read_required_before_edit()),
        Some(rc) => if !rc.full_coverage && !matches_observed(text, pat, rc.observed_ranges) {
            Some(msg_outside_observed_range())
        } else {
            None
        },
    }
}

/// What that check does to the store: it counts an access, and on success
/// marks the receipt as just used.
pub open spec fn observed_ranges_effect(
    old: StoreView,
    new: StoreView,
    key: KeyView,
    text: Seq<char>,
    pat: Seq<char>,
) -> bool {
    &&& new.next_access == sat_inc(old.next_access)
    &&& match lookup(old.entries, key) {
        Some(rc) => if observed_ranges_error(old, key, text, pat) is None {
            new.entries == update_key(
                old.entries,
                key,
                ReceiptView { last_used: new.next_access, ..rc },
            )
        } else {
            new.entries == old.entries
        },
        None => new.entries == old.entries,
    }
}

impl FileToolState {
    /// Checks that every place `old_string` would be replaced in `text` was
    /// shown by an earlier read (a complete read covers all of them), and
    /// records the access.
    pub fn validate_observed_ranges(&mut self, key: &FileReceiptKey, text: &str, old_string: &str) -> (r:
        Result<(), FunctionCallError>)
        requires
            old(self).wf(),
            text@.len() + old_string@.len() < usize::MAX,
        ensures
            final(self).wf(),
            observed_ranges_effect(old(self)@, final(self)@, key@, text@, old_string@),
            reports(r, observed_ranges_error(old(self)@, key@, text@, old_string@)),
    {
        self.next_access = self.next_access.saturating_add(1);
        let access = self.next_access;
        proof {
            lemma_remove_key(self@.entries, key@);
        }
        let i = match self.find_index(key) {
            None => {
                return Err(FunctionCallError::respond("read_file is required before editing this file"));
            },
            Some(i) => i,
        };
        let receipt = &self.receipts[i].1;
        if !receipt.full_coverage {
            let t = chars_of(text);
            let p = chars_of(old_string);
            if !matches_observed_exec(&t, &p, &receipt.observed_ranges) {
                return Err(FunctionCallError::respond(
                    "the replacement is outside the observed read range; read that range again",
                ));
            }
        }
        let updated = FileReceipt { last_used: access, ..receipt.duplicate() };
        let entry_key = self.receipts[i].0.duplicate();
        let ghost before = self.receipts@;
        let ghost new_entry = (entry_key, updated);
        self.receipts.set(i, (entry_key, updated));
        proof {
            let es = self@.entries;
            assert(es == entries_view(before).update(i as int, (new_entry.0@, new_entry.1@)));
            let o = entries_view(before);
            lemma_update_key(o, key@, new_entry.1@, i as int);
            assert forall|a: int, b: int| 0 <= a < b < es.len() implies es[a].0 != es[b].0 by {
                assert(es[a].0 == o[a].0);
                assert(es[b].0 == o[b].0);
            }
            assert forall|x: int|
                0 <= x < es.len() implies {
                &&& #[trigger] es[x].1.accounted_bytes == receipt_cost(es[x].0, es[x].1)
                &&& es[x].1.observed_ranges.len() <= MAX_RECEIPT_RANGES_PER_ENTRY
            } by {
                assert(o[x].1.accounted_bytes == receipt_cost(o[x].0, o[x].1));
            }
            lemma_sums_update(o, i as int, (new_entry.0@, new_entry.1@));
        }
        Ok(())
    }
}

/// The receipt a read leaves for a file, given the one already stored: a
/// stored receipt of the same content passes on its observed ranges (the
/// union sorted and merged) and its full coverage; `None` when the merged
/// ranges exceed the per-receipt bound.
pub open spec fn merged_read_receipt(prev: Option<ReceiptView>, rc: ReceiptView) -> Option<
    ReceiptView,
> {
    match prev {
        Some(p) => if p.fingerprint == rc.fingerprint {
            let merged = merge_sorted_ranges(sort_ranges(p.observed_ranges + rc.observed_ranges));
            if merged.len() > MAX_RECEIPT_RANGES_PER_ENTRY {
                None
            } else {
                Some(
                    ReceiptView {
                        observed_ranges: merged,
                        full_coverage: rc.full_coverage || p.full_coverage,
                        ..rc
                    },
                )
            }
        } else {
            Some(rc)
        },
        None => Some(rc),
    }
}

/// The error that recording read receipt `rc` under `key` reports.
pub open spec fn record_read_error(old: StoreView, key: KeyView, rc: ReceiptView) -> Option<
    Seq<char>,
> {
    match merged_read_receipt(lookup(old.entries, key), rc) {
        None => Some(msg_too_many_ranges()),
        Some(m) => insert_error(key, m),
    }
}

/// What recording read receipt `rc` under `key` does to store `old`.
pub open spec fn record_read_effect(old: StoreView, new: StoreView, key: KeyView, rc: ReceiptView) -> bool {
    match merged_read_receipt(lookup(old.entries, key), rc) {
        None => new.entries == remove_key(old.entries, key) && new.next_access == old.next_access,
        Some(m) => insert_effect(old, new, key, m),
    }
}

impl FileToolState {
    /// Records what a read showed: merges it into a stored receipt of the
    /// same content, then stores it (see [`insert_outcome`]).
    pub fn record_read(&mut self, key: FileReceiptKey, receipt: FileReceipt) -> (r: Result<
        (),
        FunctionCallError,
    >)
        requires
            old(self).wf(),
        ensures
            final(self).wf(),
            record_read_effect(old(self)@, final(self)@, key@, receipt@),
            reports(r, record_read_error(old(self)@, key@, receipt@)),
    {
        let mut receipt = receipt;
        proof {
            lemma_remove_key(self@.entries, key@);
        }
        match self.find_index(&key) {
            Some(i) => {
                if same_fingerprint(&self.receipts[i].1.fingerprint, &receipt.fingerprint) {
                    let all = concat_ranges(
                        &self.receipts[i].1.observed_ranges,
                        &receipt.observed_ranges,
                    );
                    let sorted = sort_ranges_exec(&all);
                    let merged = merge_ranges_exec(&sorted);
                    if merged.len() > MAX_RECEIPT_RANGES_PER_ENTRY {
                        self.remove_receipt(&key);
                        return Err(
                            FunctionCallError::respond(
                                "too many observed ranges; read a larger contiguous range",
                            ),
                        );
                    }
                    let prev_full = self.receipts[i].1.full_coverage;
                    receipt.observed_ranges = merged;
                    receipt.full_coverage = receipt.full_coverage || prev_full;
                }
            },
            None => {},
        }
        self.insert_receipt(key, receipt)
    }
}

/// The step of a turn in which a tool ran.
pub struct StepContext {
    pub id: u64,
}

/// The id of the step a receipt is recorded in.
pub fn step_id(step_context: &StepContext) -> (r: u64)
    ensures
        r == step_context.id,
{
    step_context.id
}

} // verus!
