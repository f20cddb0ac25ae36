//! The speed-section layer: the denormalized projection of speed sections.

use vstd::prelude::*;
use crate::infra_cache::InfraCache;
use crate::layer::{
    add_track_dependents, deps_of_kind, seq_unique, spec_generate, spec_update_layer,
    spec_update_list, LayerTable,
};
use crate::operation::Operation;
use crate::schema::ObjectType;
use crate::store::ObjectStore;

verus! {

/// The layer maintainer for speed sections.
pub struct SpeedSectionLayer {
    pub table: LayerTable,
}

impl SpeedSectionLayer {
    pub open spec fn inv(self) -> bool {
        self.table.inv() && self.table.spec_kind() == ObjectType::SpeedSection
    }

    /// An empty speed-section layer.
    pub fn new() -> (r: Self)
        ensures
            r.inv(),
            r.table@ == Map::<Seq<char>, Seq<(Seq<char>, u64)>>::empty(),
    {
        SpeedSectionLayer { table: LayerTable::new(ObjectType::SpeedSection) }
    }

    /// The destination table this layer is persisted to.
    pub fn table_name() -> (r: &'static str)
        ensures
            r@ == "osrd_infra_speedsectionlayer"@,
    {
        "osrd_infra_speedsectionlayer"
    }

    /// Removes every row unconditionally.
    pub fn clear(&mut self)
        requires
            old(self).inv(),
        ensures
            final(self).inv(),
            final(self).table@ == Map::<Seq<char>, Seq<(Seq<char>, u64)>>::empty(),
    {
        self.table.clear();
    }

    /// Full, idempotent recomputation from the object set.
    pub fn generate(&mut self, store: &ObjectStore)
        requires
            old(self).inv(),
            store.inv(),
        ensures
            final(self).inv(),
            final(self).table@ == spec_generate(store@, ObjectType::SpeedSection),
    {
        self.table.generate(store);
    }

    /// Deletes and regenerates exactly the rows whose id is in `obj_ids`.
    pub fn update_list(&mut self, store: &ObjectStore, obj_ids: &Vec<String>)
        requires
            old(self).inv(),
            store.inv(),
            seq_unique(obj_ids.deep_view()),
        ensures
            final(self).inv(),
            final(self).table@ == spec_update_list(
                old(self).table@,
                obj_ids.deep_view().to_set(),
                store@,
                ObjectType::SpeedSection,
            ),
    {
        self.table.update_list(store, obj_ids);
    }

    /// Adds the speed sections depending on the given track to `results`.
    pub fn fill_speed_section_track_refs(
        infra_cache: &InfraCache,
        track_id: &String,
        results: &mut Vec<String>,
    )
        requires
            infra_cache.inv(),
            seq_unique(old(results).deep_view()),
        ensures
            seq_unique(final(results).deep_view()),
            forall|x: Seq<char>|
                #[trigger] final(results).deep_view().contains(x) <==> (old(
                    results,
                ).deep_view().contains(x) || deps_of_kind(
                    infra_cache@,
                    track_id@,
                    ObjectType::SpeedSection,
                ).contains(x)),
    {
        add_track_dependents(results, infra_cache, track_id, ObjectType::SpeedSection);
    }

    /// Incremental recomputation for one batch; the cache must already
    /// reflect the object set after the batch was applied.
    pub fn update(
        &mut self,
        operations: &Vec<Operation>,
        infra_cache: &InfraCache,
        store: &ObjectStore,
    )
        requires
            old(self).inv(),
            infra_cache.inv(),
            store.inv(),
        ensures
            final(self).inv(),
            final(self).table@ == spec_update_layer(
                old(self).table@,
                operations@,
                infra_cache@,
                store@,
                ObjectType::SpeedSection,
            ),
    {
        self.table.update(operations, infra_cache, store);
    }
}

} // verus!
