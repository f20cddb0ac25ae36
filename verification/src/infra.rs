//! Infrastructure metadata and the staleness-driven refresh of its layers.
//!
//! An infrastructure owns a monotonically increasing content version and an
//! optional generated version; the layers are stale whenever the two differ.
//! A refresh regenerates every registered layer and advances the generated
//! version only when all of them succeeded.

use vstd::prelude::*;
use vstd::string::StringExecFns;
use crate::errors::InfraError;
use crate::layer::spec_generate;
use crate::railjson::{spec_operations, RailJson, RAILJSON_VERSION};
use crate::schema::ObjectType;
use crate::speed_section_layer::SpeedSectionLayer;
use crate::store::{spec_apply_batch, spec_batch_ok, ObjectStore};
use crate::switch_layer::SwitchLayer;

verus! {

/// The initial content version of a fresh infrastructure.
pub const INFRA_VERSION: u64 = 0;

/// One railway infrastructure: versioned metadata for one object set.
#[derive(Debug)]
pub struct Infra {
    pub id: i64,
    pub name: String,
    pub railjson_version: String,
    /// The owner of the infrastructure, as a 128-bit uuid value.
    pub owner: u128,
    /// The content version, bumped on every edit transaction.
    pub version: u64,
    /// The content version the layers were last generated from, if any.
    pub generated_version: Option<u64>,
    pub locked: bool,
}

/// Every registered layer of one infrastructure.
pub struct InfraLayers {
    pub speed_sections: SpeedSectionLayer,
    pub switches: SwitchLayer,
}

impl InfraLayers {
    pub open spec fn inv(self) -> bool {
        self.speed_sections.inv() && self.switches.inv()
    }

    /// Whether every layer equals a full generation from the object set.
    pub open spec fn generated_from(self, store: ObjectStore) -> bool {
        self.speed_sections.table@ == spec_generate(store@, ObjectType::SpeedSection)
            && self.switches.table@ == spec_generate(store@, ObjectType::Switch)
    }

    /// Whether every layer is empty.
    pub open spec fn is_cleared(self) -> bool {
        self.speed_sections.table@ == Map::<Seq<char>, Seq<(Seq<char>, u64)>>::empty()
            && self.switches.table@ == Map::<Seq<char>, Seq<(Seq<char>, u64)>>::empty()
    }

    /// Empty layers for a fresh infrastructure.
    pub fn new() -> (r: Self)
        ensures
            r.inv(),
            r.is_cleared(),
    {
        InfraLayers { speed_sections: SpeedSectionLayer::new(), switches: SwitchLayer::new() }
    }

    /// Regenerates every layer from the object set. The layer kinds are
    /// mutually independent; they may be recomputed in any order.
    pub fn generate_all(&mut self, store: &ObjectStore)
        requires
            old(self).inv(),
            store.inv(),
        ensures
            final(self).inv(),
            final(self).generated_from(*store),
    {
        self.speed_sections.generate(store);
        self.switches.generate(store);
    }

    /// Removes every row of every layer.
    pub fn clear_all(&mut self)
        requires
            old(self).inv(),
        ensures
            final(self).inv(),
            final(self).is_cleared(),
    {
        self.speed_sections.clear();
        self.switches.clear();
    }
}

impl Infra {
    /// Whether the generated layers are out of date: the generated version
    /// is unset or differs from the content version.
    pub open spec fn is_stale(self) -> bool {
        self.generated_version != Some(self.version)
    }

    /// A fresh, unlocked infrastructure with nothing generated yet.
    pub fn new(id: i64, name: String) -> (r: Infra)
        ensures
            r.id == id,
            r.name == name,
            r.railjson_version@ == RAILJSON_VERSION@,
            r.owner == 0,
            r.version == INFRA_VERSION,
            r.generated_version is None,
            !r.locked,
    {
        Infra {
            id,
            name,
            railjson_version: String::from_str(RAILJSON_VERSION),
            owner: 0,
            version: INFRA_VERSION,
            generated_version: None,
            locked: false,
        }
    }

    /// The infrastructure's identifier.
    pub fn get_id(&self) -> (r: i64)
        ensures
            r == self.id,
    {
        self.id
    }

    /// Advances the content version by one; the layers become stale.
    pub fn bump_version(&mut self)
        requires
            old(self).version < u64::MAX,
        ensures
            final(self).version == old(self).version + 1,
            final(self).generated_version == old(self).generated_version,
            final(self).id == old(self).id,
            final(self).name == old(self).name,
            final(self).railjson_version == old(self).railjson_version,
            final(self).owner == old(self).owner,
            final(self).locked == old(self).locked,
            old(self).generated_version == Some(old(self).version) ==> final(self).is_stale(),
    {
        self.version = self.version + 1;
    }

    /// Refreshes the generated layers if they are out of date, or always
    /// when forced, and returns whether they were refreshed. When the
    /// layers are fresh and no refresh is forced, nothing is touched.
    pub fn refresh(
        &mut self,
        layers: &mut InfraLayers,
        store: &ObjectStore,
        force: bool,
    ) -> (refreshed: bool)
        requires
            old(layers).inv(),
            store.inv(),
        ensures
            final(layers).inv(),
            refreshed == (force || old(self).is_stale()),
            !refreshed ==> *final(self) == *old(self) && *final(layers) == *old(layers),
            refreshed ==> final(layers).generated_from(*store) && final(self).generated_version
                == Some(old(self).version),
            final(self).version == old(self).version,
            final(self).id == old(self).id,
            final(self).name == old(self).name,
            final(self).locked == old(self).locked,
            refreshed ==> !final(self).is_stale(),
    {
        let fresh = match self.generated_version {
            Some(g) => g == self.version,
            None => false,
        };
        if !force && fresh {
            return false;
        }
        layers.generate_all(store);
        self.generated_version = Some(self.version);
        true
    }

    /// Records the outcome of an externally driven generation cycle: the
    /// generated version advances only when every layer maintainer
    /// succeeded; a single failure leaves it unchanged and is surfaced.
    pub fn record_generation_result(&mut self, success: bool) -> (r: Result<bool, InfraError>)
        ensures
            match r {
                Ok(b) => b && success && final(self).generated_version == Some(old(self).version)
                    && final(self).version == old(self).version && final(self).id == old(self).id
                    && final(self).name == old(self).name,
                Err(e) => e is DependencyGenerationFailure && !success && *final(self)
                    == *old(self),
            },
    {
        if success {
            self.generated_version = Some(self.version);
            Ok(true)
        } else {
            Err(InfraError::DependencyGenerationFailure)
        }
    }

    /// Clears the generated data: unsets the generated version and removes
    /// every layer row. Used when the canonical data was bulk-replaced and
    /// cannot be incrementally trusted.
    pub fn clear(&mut self, layers: &mut InfraLayers) -> (r: bool)
        requires
            old(layers).inv(),
        ensures
            r,
            final(layers).inv(),
            final(layers).is_cleared(),
            final(self).generated_version is None,
            final(self).version == old(self).version,
            final(self).id == old(self).id,
            final(self).name == old(self).name,
            final(self).locked == old(self).locked,
    {
        layers.clear_all();
        self.generated_version = None;
        true
    }

    /// A copy of an infrastructure under a new id: versions and the locked
    /// flag are carried over, the owner is reset, and without an explicit
    /// new name the source's name gains a copy marker.
    pub fn clone(source: &Infra, new_id: i64, new_name: Option<String>) -> (r: Infra)
        ensures
            r.id == new_id,
            (match new_name {
                Some(n) => r.name@ == n@,
                None => r.name@ == source.name@ + " (copy)"@,
            }),
            r.railjson_version@ == RAILJSON_VERSION@,
            r.owner == 0,
            r.version == source.version,
            r.generated_version == source.generated_version,
            r.locked == source.locked,
    {
        let name = match new_name {
            Some(n) => n,
            None => {
                let mut cloned_name = source.name.clone();
                cloned_name.append(" (copy)");
                cloned_name
            },
        };
        Infra {
            id: new_id,
            name,
            railjson_version: String::from_str(RAILJSON_VERSION),
            owner: 0,
            version: source.version,
            generated_version: source.generated_version,
            locked: source.locked,
        }
    }

    /// Imports a whole payload: rejected with `VersionConflict` before any
    /// mutation when the declared format version is not the expected one;
    /// otherwise every object is created in a fresh object set, failing
    /// with `InvariantViolation` on a duplicate reference.
    pub fn persist(self, railjson: RailJson) -> (r: Result<(Infra, ObjectStore), InfraError>)
        ensures
            match r {
                Ok(p) => railjson.version@ == RAILJSON_VERSION@ && p.0 == self && p.1.inv()
                    && spec_batch_ok(
                    Map::<(ObjectType, Seq<char>), crate::schema::RailjsonObject>::empty(),
                    spec_operations(railjson),
                ) && p.1@ == spec_apply_batch(
                    Map::<(ObjectType, Seq<char>), crate::schema::RailjsonObject>::empty(),
                    spec_operations(railjson),
                ),
                Err(e) => (e matches InfraError::VersionConflict(v) && v@ == railjson.version@
                    && railjson.version@ != RAILJSON_VERSION@) || (e is InvariantViolation
                    && railjson.version@ == RAILJSON_VERSION@ && !spec_batch_ok(
                    Map::<(ObjectType, Seq<char>), crate::schema::RailjsonObject>::empty(),
                    spec_operations(railjson),
                )),
            },
    {
        let expected = String::from_str(RAILJSON_VERSION);
        if !(railjson.version == expected) {
            return Err(InfraError::VersionConflict(railjson.version));
        }
        let ops = railjson.into_operations();
        let mut store = ObjectStore::new();
        match store.apply_batch(ops) {
            Ok(()) => Ok((self, store)),
            Err(e) => Err(e),
        }
    }
}

} // verus!
