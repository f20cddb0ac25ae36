//! The operation applier: one edit transaction applied to the object set
//! and the dependency cache together.

use vstd::prelude::*;
use crate::errors::InfraError;
use crate::infra_cache::{spec_apply_ops, spec_apply_ops_ok, InfraCache};
use crate::layer::{lemma_apply_preserves_reflects, reflects};
use crate::operation::{batch_consistent, Operation};
use crate::store::{lemma_batch_ok_take, spec_apply_batch, spec_batch_ok, store_wf, ObjectStore};

verus! {

/// Applies one whole edit transaction to the object set and the cache
/// together, operation by operation. Starting from a coherent pair, a batch
/// the object set accepts is also accepted by the cache, and the pair stays
/// coherent. On failure the transaction is aborted with
/// `InvariantViolation`: the pair may be partially updated and must be
/// discarded, with the cache rebuilt from the canonical store.
pub fn apply_edit_transaction(
    infra_cache: &mut InfraCache,
    store: &mut ObjectStore,
    operations: Vec<Operation>,
) -> (r: Result<(), InfraError>)
    requires
        old(infra_cache).inv(),
        old(infra_cache)@.wf(),
        old(store).inv(),
        reflects(old(infra_cache)@, old(store)@),
        batch_consistent(operations@),
    ensures
        final(infra_cache).inv(),
        final(store).inv(),
        match r {
            Ok(()) => spec_batch_ok(old(store)@, operations@) && spec_apply_ops_ok(
                old(infra_cache)@,
                operations@,
            ) && final(store)@ == spec_apply_batch(old(store)@, operations@)
                && final(infra_cache)@ == spec_apply_ops(old(infra_cache)@, operations@)
                && final(infra_cache)@.wf() && reflects(final(infra_cache)@, final(store)@),
            Err(e) => e is InvariantViolation && !spec_batch_ok(old(store)@, operations@),
        },
{
    let ghost c0 = infra_cache@;
    let ghost s0 = store@;
    let ghost ops0 = operations@;
    let mut remaining = operations;
    let ghost mut i: int = 0;
    while remaining.len() > 0
        invariant
            infra_cache.inv(),
            store.inv(),
            0 <= i <= ops0.len(),
            old(infra_cache)@ == c0,
            old(store)@ == s0,
            operations@ == ops0,
            batch_consistent(ops0),
            remaining@ == ops0.skip(i),
            spec_batch_ok(s0, ops0.take(i)),
            store@ == spec_apply_batch(s0, ops0.take(i)),
            infra_cache@ == spec_apply_ops(c0, ops0.take(i)),
            infra_cache@.wf(),
            reflects(infra_cache@, store@),
        decreases remaining@.len(),
    {
        let op = remaining.remove(0);
        proof {
            assert(op == ops0[i]);
            assert(remaining@ =~= ops0.skip(i + 1));
            assert(op.spec_consistent());
        }
        let ghost c_mid = infra_cache@;
        let ghost s_mid = store@;
        let cache_result = infra_cache.apply(&op);
        match cache_result {
            Err(_) => {
                proof {
                    if spec_batch_ok(s0, ops0) {
                        lemma_batch_ok_take(s0, ops0, i + 1);
                        let t1 = ops0.take(i + 1);
                        assert(t1.drop_last() =~= ops0.take(i));
                        assert(t1.last() == op);
                        assert(crate::store::store_apply_ok(s_mid, op));
                        lemma_apply_preserves_reflects(c_mid, s_mid, op);
                        assert(crate::infra_cache::spec_apply_ok(c_mid, op));
                        assert(false);
                    }
                }
                return Err(InfraError::InvariantViolation);
            },
            Ok(()) => {},
        }
        match store.apply_operation(op) {
            Err(_) => {
                proof {
                    if spec_batch_ok(s0, ops0) {
                        lemma_batch_ok_take(s0, ops0, i + 1);
                        let t1 = ops0.take(i + 1);
                        assert(t1.drop_last() =~= ops0.take(i));
                        assert(t1.last() == op);
                        assert(crate::store::store_apply_ok(s_mid, op));
                        assert(false);
                    }
                }
                return Err(InfraError::InvariantViolation);
            },
            Ok(()) => {},
        }
        proof {
            let t1 = ops0.take(i + 1);
            assert(t1.drop_last() =~= ops0.take(i));
            assert(t1.last() == op);
            lemma_apply_preserves_reflects(c_mid, s_mid, op);
            crate::infra_cache::lemma_apply_preserves_wf(c_mid, op);
            i = i + 1;
        }
    }
    proof {
        assert(i == ops0.len());
        assert(ops0.take(ops0.len() as int) =~= ops0);
        crate::layer::lemma_batch_preserves_reflects(c0, s0, ops0);
    }
    Ok(())
}

} // verus!
