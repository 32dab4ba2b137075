//! What the receipt store promises across its operations.
use vstd::prelude::*;
use crate::file_ops::committed_receipt_view;
use crate::file_receipts::{
    distinct_keys, evict_until_fits, fits, insert_effect, insert_error, lemma_lru_index,
    lemma_remove_key, lookup, lru_index, msg_read_required_before_mutation,
    msg_separate_completions, receipt_check, remove_key, sha256_digest, stored_receipt, store_wf,
    Entry, KeyView, ReceiptView, StoreView,
};
use crate::file_receipts::FileMetadata;

verus! {

/// Looking a key up after removing one entry: gone if it was that entry's
/// key, else as before.
proof fn lemma_lookup_remove_at(es: Seq<Entry>, i: int, k: KeyView)
    requires
        distinct_keys(es),
        0 <= i < es.len(),
    ensures
        lookup(es.remove(i), k) == if es[i].0 == k {
            None
        } else {
            lookup(es, k)
        },
{
    let r = es.remove(i);
    assert(distinct_keys(r)) by {
        assert forall|a: int, b: int| 0 <= a < b < r.len() implies r[a].0 != r[b].0 by {
            let a2 = if a < i { a } else { a + 1 };
            let b2 = if b < i { b } else { b + 1 };
            assert(r[a] == es[a2]);
            assert(r[b] == es[b2]);
        }
    }
    lemma_remove_key(es, k);
    lemma_remove_key(r, k);
    if exists|j: int| 0 <= j < r.len() && r[j].0 == k {
        let j = choose|j: int| 0 <= j < r.len() && r[j].0 == k;
        let j2 = if j < i { j } else { j + 1 };
        assert(r[j] == es[j2]);
    }
    if es[i].0 != k && exists|j: int| 0 <= j < es.len() && es[j].0 == k {
        let j = choose|j: int| 0 <= j < es.len() && es[j].0 == k;
        let j2 = if j < i { j } else { j - 1 };
        assert(r[j2] == es[j]);
    }
}

/// Eviction only drops entries: a key is either gone or finds what it found
/// before.
proof fn lemma_evict_lookup(es: Seq<Entry>, ranges: nat, bytes: nat, k: KeyView)
    requires
        distinct_keys(es),
    ensures
        lookup(evict_until_fits(es, ranges, bytes), k) is None || lookup(
            evict_until_fits(es, ranges, bytes),
            k,
        ) == lookup(es, k),
    decreases es.len(),
{
    if !(es.len() == 0 || fits(es, ranges, bytes)) {
        lemma_lru_index(es);
        let j = lru_index(es);
        lemma_lookup_remove_at(es, j, k);
        let r = es.remove(j);
        assert(distinct_keys(r)) by {
            assert forall|a: int, b: int| 0 <= a < b < r.len() implies r[a].0 != r[b].0 by {
                let a2 = if a < j { a } else { a + 1 };
                let b2 = if b < j { b } else { b + 1 };
                assert(r[a] == es[a2]);
                assert(r[b] == es[b2]);
            }
        }
        lemma_evict_lookup(r, ranges, bytes, k);
    }
}

/// Removing a key: it is gone, every other key finds what it found before.
proof fn lemma_remove_key_lookup(es: Seq<Entry>, key: KeyView, k: KeyView)
    requires
        distinct_keys(es),
    ensures
        lookup(remove_key(es, key), k) == if k == key {
            None
        } else {
            lookup(es, k)
        },
        distinct_keys(remove_key(es, key)),
{
    lemma_remove_key(es, key);
    if exists|i: int| 0 <= i < es.len() && es[i].0 == key {
        let i = choose|i: int| 0 <= i < es.len() && es[i].0 == key;
        lemma_lookup_remove_at(es, i, k);
        let r = es.remove(i);
        assert forall|a: int, b: int| 0 <= a < b < r.len() implies r[a].0 != r[b].0 by {
            let a2 = if a < i { a } else { a + 1 };
            let b2 = if b < i { b } else { b + 1 };
            assert(r[a] == es[a2]);
            assert(r[b] == es[b2]);
        }
    } else {
        lemma_remove_key(es, k);
    }
}

/// A receipt that was stored is found again under its key, as stored.
pub proof fn law_insert_then_lookup(old: StoreView, new: StoreView, key: KeyView, rc: ReceiptView)
    requires
        store_wf(old),
        insert_effect(old, new, key, rc),
        insert_error(key, rc) is None,
    ensures
        lookup(new.entries, key) == Some(stored_receipt(key, rc, new.next_access)),
{
}

/// A stored receipt is the most recently used one: it carries the latest
/// access, no receipt in the store was used later, and the access counter
/// moved on unless it had reached its largest value.
pub proof fn law_inserted_receipt_is_most_recent(old: StoreView, new: StoreView, key: KeyView, rc: ReceiptView)
    requires
        store_wf(old),
        store_wf(new),
        insert_effect(old, new, key, rc),
        insert_error(key, rc) is None,
    ensures
        lookup(new.entries, key) matches Some(v) && v.last_used == new.next_access,
        forall|i: int| 0 <= i < new.entries.len() ==> (#[trigger] new.entries[i]).1.last_used <= new.next_access,
        old.next_access < u64::MAX ==> new.next_access == old.next_access + 1,
{
}

/// Storing a receipt under one key never changes the receipt of another:
/// that one is kept as it was or evicted.
pub proof fn law_insert_keeps_or_evicts_others(
    old: StoreView,
    new: StoreView,
    key: KeyView,
    rc: ReceiptView,
    k: KeyView,
)
    requires
        store_wf(old),
        insert_effect(old, new, key, rc),
        k != key,
    ensures
        lookup(new.entries, k) is None || lookup(new.entries, k) == lookup(old.entries, k),
{
    lemma_remove_key_lookup(old.entries, key, k);
    let base = remove_key(old.entries, key);
    if insert_error(key, rc) is None {
        let ev = evict_until_fits(
            base,
            rc.observed_ranges.len(),
            crate::file_receipts::receipt_cost(key, rc),
        );
        lemma_evict_lookup(base, rc.observed_ranges.len(), crate::file_receipts::receipt_cost(key, rc), k);
        assert(new.entries.drop_last() == ev);
        assert(new.entries.last().0 == key);
    }
}

/// After a receipt is removed, its key finds nothing and every other key
/// finds what it found before.
pub proof fn law_remove_then_lookup(old: StoreView, key: KeyView, k: KeyView)
    requires
        store_wf(old),
    ensures
        lookup(remove_key(old.entries, key), key) is None,
        k != key ==> lookup(remove_key(old.entries, key), k) == lookup(old.entries, k),
{
    lemma_remove_key_lookup(old.entries, key, key);
    lemma_remove_key_lookup(old.entries, key, k);
}

/// A file may only be edited or overwritten after it was read.
pub proof fn law_mutation_needs_prior_read(
    s: StoreView,
    key: KeyView,
    digest: Seq<u8>,
    size: u64,
    modified_at_ms: i64,
    step_id: u64,
    require_full: bool,
    access: u64,
)
    requires
        lookup(s.entries, key) is None,
    ensures
        receipt_check(lookup(s.entries, key), digest, size, modified_at_ms, step_id, require_full, access)
            == Err::<ReceiptView, Seq<char>>(msg_read_required_before_mutation()),
{
}

/// A read and a mutation that depends on it must come in separate
/// completions.
pub proof fn law_same_step_read_blocks_mutation(
    rc: ReceiptView,
    digest: Seq<u8>,
    size: u64,
    modified_at_ms: i64,
    require_full: bool,
    access: u64,
)
    ensures
        receipt_check(Some(rc), digest, size, modified_at_ms, rc.step_id, require_full, access)
            == Err::<ReceiptView, Seq<char>>(msg_separate_completions()),
{
}

/// After a committed mutation leaves its receipt, a later completion may
/// overwrite the file again as long as it still holds the committed bytes.
pub proof fn law_commit_enables_next_write(
    old: StoreView,
    new: StoreView,
    key: KeyView,
    bytes: Seq<u8>,
    metadata: FileMetadata,
    commit_step: u64,
    later_step: u64,
    modified_at_ms: i64,
    access: u64,
)
    requires
        store_wf(old),
        insert_effect(old, new, key, committed_receipt_view(bytes, metadata, commit_step)),
        insert_error(key, committed_receipt_view(bytes, metadata, commit_step)) is None,
        later_step != commit_step,
    ensures
        receipt_check(
            lookup(new.entries, key),
            sha256_digest(bytes),
            metadata.size,
            modified_at_ms,
            later_step,
            true,
            access,
        ) is Ok,
{
}

} // verus!
