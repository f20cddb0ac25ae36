//! Edit operations: a batch of these makes up one logical edit transaction.

use vstd::prelude::*;
use crate::infra_cache::InfraCache;
use crate::schema::{ObjectRef, ObjectType, RailjsonObject};

verus! {

/// An update of one object: the identity of the object to replace together
/// with its new payload.
#[derive(Clone, Debug)]
pub struct UpdateOperation {
    pub obj_type: ObjectType,
    pub obj_id: String,
    pub railjson: RailjsonObject,
}

/// One edit of the canonical object set.
#[derive(Clone, Debug)]
pub enum Operation {
    Create(RailjsonObject),
    Update(UpdateOperation),
    Delete(ObjectRef),
}

impl Operation {
    /// Whether an update operation names the same object its payload carries.
    /// Batches produced by the editing API always satisfy this.
    pub open spec fn spec_consistent(&self) -> bool {
        match self {
            Operation::Update(u) => u.railjson.spec_type() == u.obj_type
                && u.railjson.spec_id() == u.obj_id@,
            _ => true,
        }
    }
}

/// Whether every update of the batch names the object its payload carries.
pub open spec fn batch_consistent(ops: Seq<Operation>) -> bool {
    forall|i: int| 0 <= i < ops.len() ==> (#[trigger] ops[i]).spec_consistent()
}

/// Per-kind lists of object ids whose derived data must be refreshed,
/// deduplicated within each kind.
pub struct UpdateLists {
    track_sections: Vec<String>,
    signals: Vec<String>,
    speed_sections: Vec<String>,
    switches: Vec<String>,
    switch_types: Vec<String>,
    routes: Vec<String>,
    buffer_stops: Vec<String>,
    detectors: Vec<String>,
    operational_points: Vec<String>,
    neutral_sections: Vec<String>,
    electrifications: Vec<String>,
}

impl UpdateLists {
    closed spec fn list_for(self, k: ObjectType) -> Seq<Seq<char>> {
        match k {
            ObjectType::TrackSection => self.track_sections.deep_view(),
            ObjectType::Signal => self.signals.deep_view(),
            ObjectType::SpeedSection => self.speed_sections.deep_view(),
            ObjectType::Switch => self.switches.deep_view(),
            ObjectType::SwitchType => self.switch_types.deep_view(),
            ObjectType::Route => self.routes.deep_view(),
            ObjectType::BufferStop => self.buffer_stops.deep_view(),
            ObjectType::Detector => self.detectors.deep_view(),
            ObjectType::OperationalPoint => self.operational_points.deep_view(),
            ObjectType::NeutralSection => self.neutral_sections.deep_view(),
            ObjectType::Electrification => self.electrifications.deep_view(),
        }
    }

    /// The ids recorded for one kind, as a set.
    pub closed spec fn spec_get(self, k: ObjectType) -> Set<Seq<char>> {
        self.list_for(k).to_set()
    }

    /// Each kind's list is free of repetition.
    pub closed spec fn inv(self) -> bool {
        forall|k: ObjectType| crate::layer::seq_unique(#[trigger] self.list_for(k))
    }

    /// Empty lists for every kind.
    pub fn new() -> (r: Self)
        ensures
            r.inv(),
            forall|k: ObjectType| (#[trigger] r.spec_get(k)) == Set::<Seq<char>>::empty(),
    {
        let r = UpdateLists {
            track_sections: Vec::new(),
            signals: Vec::new(),
            speed_sections: Vec::new(),
            switches: Vec::new(),
            switch_types: Vec::new(),
            routes: Vec::new(),
            buffer_stops: Vec::new(),
            detectors: Vec::new(),
            operational_points: Vec::new(),
            neutral_sections: Vec::new(),
            electrifications: Vec::new(),
        };
        proof {
            assert forall|k: ObjectType| (#[trigger] r.spec_get(k)) == Set::<
                Seq<char>,
            >::empty() by {
                assert(r.list_for(k).len() == 0);
                assert(r.spec_get(k) =~= Set::<Seq<char>>::empty());
            }
        }
        r
    }

    /// Records an id under a kind, ignoring a repetition.
    pub fn insert(&mut self, k: ObjectType, id: &String)
        requires
            old(self).inv(),
        ensures
            final(self).inv(),
            forall|kk: ObjectType|
                (#[trigger] final(self).spec_get(kk)) == (if kk == k {
                    old(self).spec_get(kk).insert(id@)
                } else {
                    old(self).spec_get(kk)
                }),
    {
        proof {
            assert(crate::layer::seq_unique(old(self).list_for(k)));
        }
        match k {
            ObjectType::TrackSection => crate::layer::push_unique(&mut self.track_sections, id),
            ObjectType::Signal => crate::layer::push_unique(&mut self.signals, id),
            ObjectType::SpeedSection => crate::layer::push_unique(&mut self.speed_sections, id),
            ObjectType::Switch => crate::layer::push_unique(&mut self.switches, id),
            ObjectType::SwitchType => crate::layer::push_unique(&mut self.switch_types, id),
            ObjectType::Route => crate::layer::push_unique(&mut self.routes, id),
            ObjectType::BufferStop => crate::layer::push_unique(&mut self.buffer_stops, id),
            ObjectType::Detector => crate::layer::push_unique(&mut self.detectors, id),
            ObjectType::OperationalPoint => crate::layer::push_unique(
                &mut self.operational_points,
                id,
            ),
            ObjectType::NeutralSection => crate::layer::push_unique(
                &mut self.neutral_sections,
                id,
            ),
            ObjectType::Electrification => crate::layer::push_unique(
                &mut self.electrifications,
                id,
            ),
        }
        proof {
            assert forall|kk: ObjectType| crate::layer::seq_unique(
                #[trigger] self.list_for(kk),
            ) by {
                if kk != k {
                    assert(self.list_for(kk) == old(self).list_for(kk));
                    assert(crate::layer::seq_unique(old(self).list_for(kk)));
                }
            }
            assert forall|kk: ObjectType|
                (#[trigger] self.spec_get(kk)) == (if kk == k {
                    old(self).spec_get(kk).insert(id@)
                } else {
                    old(self).spec_get(kk)
                }) by {
                if kk == k {
                    assert(self.spec_get(kk) =~= old(self).spec_get(kk).insert(id@));
                } else {
                    assert(self.list_for(kk) == old(self).list_for(kk));
                }
            }
        }
    }

    /// The recorded ids of one kind, pairwise distinct.
    pub fn get_ids(&self, k: ObjectType) -> (r: &Vec<String>)
        ensures
            forall|x: Seq<char>|
                #[trigger] r.deep_view().contains(x) <==> self.spec_get(k).contains(x),
    {
        match k {
            ObjectType::TrackSection => &self.track_sections,
            ObjectType::Signal => &self.signals,
            ObjectType::SpeedSection => &self.speed_sections,
            ObjectType::Switch => &self.switches,
            ObjectType::SwitchType => &self.switch_types,
            ObjectType::Route => &self.routes,
            ObjectType::BufferStop => &self.buffer_stops,
            ObjectType::Detector => &self.detectors,
            ObjectType::OperationalPoint => &self.operational_points,
            ObjectType::NeutralSection => &self.neutral_sections,
            ObjectType::Electrification => &self.electrifications,
        }
    }
}

/// A creation of one object, as submitted by the editing API.
#[derive(Clone, Debug)]
pub enum CreateOperation {
    TrackSection { railjson: crate::schema::TrackSection },
}

impl CreateOperation {
    pub open spec fn spec_obj_type(self) -> ObjectType {
        match self {
            CreateOperation::TrackSection { .. } => ObjectType::TrackSection,
        }
    }

    pub open spec fn spec_obj_id(self) -> Seq<char> {
        match self {
            CreateOperation::TrackSection { railjson } => railjson.id@,
        }
    }

    pub fn get_obj_type(&self) -> (r: ObjectType)
        ensures
            r == self.spec_obj_type(),
    {
        match self {
            CreateOperation::TrackSection { .. } => ObjectType::TrackSection,
        }
    }

    pub fn get_obj_id(&self) -> (r: String)
        ensures
            r@ == self.spec_obj_id(),
    {
        match self {
            CreateOperation::TrackSection { railjson } => railjson.id.clone(),
        }
    }

    /// Records this creation's object id under its kind, and, when a track
    /// section is created, every object depending on that track under its
    /// own kind.
    pub fn get_updated_objects(&self, update_lists: &mut UpdateLists, infra_cache: &InfraCache)
        requires
            old(update_lists).inv(),
            infra_cache.inv(),
        ensures
            final(update_lists).inv(),
            forall|kk: ObjectType|
                (#[trigger] final(update_lists).spec_get(kk)) == (old(update_lists).spec_get(
                    kk,
                ).union(
                    if kk == self.spec_obj_type() {
                        Set::<Seq<char>>::empty().insert(self.spec_obj_id())
                    } else {
                        Set::<Seq<char>>::empty()
                    },
                ).union(
                    if self.spec_obj_type() == ObjectType::TrackSection && (kk
                        == ObjectType::Signal || kk == ObjectType::SpeedSection) {
                        crate::layer::deps_of_kind(infra_cache@, self.spec_obj_id(), kk)
                    } else {
                        Set::<Seq<char>>::empty()
                    },
                )),
    {
        let id = self.get_obj_id();
        update_lists.insert(self.get_obj_type(), &id);
        let ghost mid = *update_lists;
        if self.get_obj_type() == ObjectType::TrackSection {
            infra_cache.get_tracks_dependencies(&id, update_lists);
        }
        proof {
            assert forall|kk: ObjectType|
                (#[trigger] update_lists.spec_get(kk)) == (old(update_lists).spec_get(kk).union(
                    if kk == self.spec_obj_type() {
                        Set::<Seq<char>>::empty().insert(self.spec_obj_id())
                    } else {
                        Set::<Seq<char>>::empty()
                    },
                ).union(
                    if self.spec_obj_type() == ObjectType::TrackSection && (kk
                        == ObjectType::Signal || kk == ObjectType::SpeedSection) {
                        crate::layer::deps_of_kind(infra_cache@, self.spec_obj_id(), kk)
                    } else {
                        Set::<Seq<char>>::empty()
                    },
                )) by {
                assert(update_lists.spec_get(kk) =~= old(update_lists).spec_get(kk).union(
                    if kk == self.spec_obj_type() {
                        Set::<Seq<char>>::empty().insert(self.spec_obj_id())
                    } else {
                        Set::<Seq<char>>::empty()
                    },
                ).union(
                    if self.spec_obj_type() == ObjectType::TrackSection && (kk
                        == ObjectType::Signal || kk == ObjectType::SpeedSection) {
                        crate::layer::deps_of_kind(infra_cache@, self.spec_obj_id(), kk)
                    } else {
                        Set::<Seq<char>>::empty()
                    },
                ));
            }
        }
    }
}

} // verus!
