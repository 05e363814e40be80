//! Batched upsert into the contract store: what each row becomes, and what a
//! batch reports.

use vstd::prelude::*;
use crate::models::ContractData;

verus! {

/// The number of records of a batch whose upsert succeeded.
pub open spec fn stored_count(outcomes: Seq<bool>) -> nat
    decreases outcomes.len(),
{
    if outcomes.len() == 0 {
        0
    } else {
        stored_count(outcomes.drop_last()) + if outcomes.last() {
            1nat
        } else {
            0nat
        }
    }
}

/// Reduces the per-record outcomes of a batch (`true`: stored) to the count
/// of stored records. A failed record only leaves the count.
pub fn count_imported(outcomes: &Vec<bool>) -> (r: usize)
    ensures
        r == stored_count(outcomes@),
{
    let mut n: usize = 0;
    let mut i: usize = 0;
    while i < outcomes.len()
        invariant
            i <= outcomes@.len(),
            n == stored_count(outcomes@.subrange(0, i as int)),
            n <= i,
        decreases outcomes@.len() - i,
    {
        assert(outcomes@.subrange(0, i + 1).drop_last() =~= outcomes@.subrange(0, i as int));
        if outcomes[i] {
            n = n + 1;
        }
        i = i + 1;
    }
    assert(outcomes@.subrange(0, outcomes@.len() as int) =~= outcomes@);
    n
}

/// One row of the contract store, with its audit times in epoch seconds.
pub struct StoredRow {
    pub record: ContractData,
    pub created_at: i64,
    pub updated_at: i64,
}

/// The store's unique key of a record.
pub open spec fn row_key(c: ContractData) -> (i32, Seq<char>) {
    (c.chain_id, c.address@)
}

/// What an existing row's record becomes when `c` is upserted over it: every
/// mutable field is taken from `c`; the key and the chain name stay.
pub open spec fn overwrite(old_rec: ContractData, c: ContractData) -> ContractData {
    ContractData { address: old_rec.address, chain: old_rec.chain, chain_id: old_rec.chain_id, ..c }
}

/// The store after upserting `c` at time `now`: a new row when its key is
/// absent, else the row overwritten with `created_at` kept.
pub open spec fn upsert(
    table: Map<(i32, Seq<char>), StoredRow>,
    c: ContractData,
    now: i64,
) -> Map<(i32, Seq<char>), StoredRow> {
    let k = row_key(c);
    if table.contains_key(k) {
        table.insert(
            k,
            StoredRow {
                record: overwrite(table[k].record, c),
                created_at: table[k].created_at,
                updated_at: now,
            },
        )
    } else {
        table.insert(k, StoredRow { record: c, created_at: now, updated_at: now })
    }
}

/// The store after a batch: each record upserted in order where its outcome
/// says it was stored, and left out where it failed.
pub open spec fn apply_batch(
    table: Map<(i32, Seq<char>), StoredRow>,
    records: Seq<ContractData>,
    outcomes: Seq<bool>,
    now: i64,
) -> Map<(i32, Seq<char>), StoredRow>
    decreases records.len(),
{
    if records.len() == 0 || outcomes.len() == 0 {
        table
    } else {
        let pre = apply_batch(table, records.drop_last(), outcomes.drop_last(), now);
        if outcomes.last() {
            upsert(pre, records.last(), now)
        } else {
            pre
        }
    }
}

/// Upserting the same record twice leaves exactly one row under its key, with
/// the creation time of the first write and the update time of the second;
/// no other row changes.
pub proof fn lemma_upsert_twice(
    table: Map<(i32, Seq<char>), StoredRow>,
    c: ContractData,
    first: i64,
    second: i64,
)
    ensures
        ({
            let once = upsert(table, c, first);
            let twice = upsert(once, c, second);
            let k = row_key(c);
            &&& twice.dom() == table.dom().insert(k)
            &&& twice[k].created_at == (if table.contains_key(k) {
                table[k].created_at
            } else {
                first
            })
            &&& twice[k].updated_at == second
            &&& twice[k].record == once[k].record
            &&& forall|j: (i32, Seq<char>)| j != k && #[trigger] table.contains_key(j) ==> twice[j]
                == table[j]
        }),
{
    let once = upsert(table, c, first);
    let twice = upsert(once, c, second);
    let k = row_key(c);
    assert(twice.dom() =~= table.dom().insert(k));
}

/// A record whose upsert failed leaves the store as the records before it left it.
pub proof fn lemma_failed_record_changes_nothing(
    table: Map<(i32, Seq<char>), StoredRow>,
    records: Seq<ContractData>,
    outcomes: Seq<bool>,
    now: i64,
)
    requires
        records.len() > 0,
        outcomes.len() == records.len(),
        !outcomes.last(),
    ensures
        apply_batch(table, records, outcomes, now) == apply_batch(
            table,
            records.drop_last(),
            outcomes.drop_last(),
            now,
        ),
{
}

} // verus!
