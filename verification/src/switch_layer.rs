//! The switch layer: the denormalized projection of switches.

use vstd::prelude::*;
use crate::infra_cache::InfraCache;
use crate::layer::{spec_generate, spec_update_layer, LayerTable};
use crate::operation::Operation;
use crate::schema::ObjectType;
use crate::store::ObjectStore;

verus! {

/// The layer maintainer for switches.
pub struct SwitchLayer {
    pub table: LayerTable,
}

impl SwitchLayer {
    pub open spec fn inv(self) -> bool {
        self.table.inv() && self.table.spec_kind() == ObjectType::Switch
    }

    /// An empty switch layer.
    pub fn new() -> (r: Self)
        ensures
            r.inv(),
            r.table@ == Map::<Seq<char>, Seq<(Seq<char>, u64)>>::empty(),
    {
        SwitchLayer { table: LayerTable::new(ObjectType::Switch) }
    }

    /// The destination table this layer is persisted to.
    pub fn table_name() -> (r: &'static str)
        ensures
            r@ == "infra_layer_switch"@,
    {
        "infra_layer_switch"
    }

    /// Removes every row unconditionally.
    pub fn clear(&mut self)
        requires
            old(self).inv(),
        ensures
            final(self).inv(),
            final(self).table@ == Map::<Seq<char>, Seq<(Seq<char>, u64)>>::empty(),
    {
        self.table.clear();
    }

    /// Full, idempotent recomputation from the object set.
    pub fn generate(&mut self, store: &ObjectStore)
        requires
            old(self).inv(),
            store.inv(),
        ensures
            final(self).inv(),
            final(self).table@ == spec_generate(store@, ObjectType::Switch),
    {
        self.table.generate(store);
    }

    /// Incremental recomputation for one batch; the cache must already
    /// reflect the object set after the batch was applied.
    pub fn update(
        &mut self,
        operations: &Vec<Operation>,
        infra_cache: &InfraCache,
        store: &ObjectStore,
    )
        requires
            old(self).inv(),
            infra_cache.inv(),
            store.inv(),
        ensures
            final(self).inv(),
            final(self).table@ == spec_update_layer(
                old(self).table@,
                operations@,
                infra_cache@,
                store@,
                ObjectType::Switch,
            ),
    {
        self.table.update(operations, infra_cache, store);
    }
}

} // verus!
