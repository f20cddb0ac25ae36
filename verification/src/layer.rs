//! Layer maintenance: denormalized per-kind projections kept consistent with
//! incremental edits.
//!
//! A layer table holds one row per object of its kind; the row carries the
//! join of the object's referenced tracks with the current track payloads.
//! `generate` rebuilds the whole table from the object set; `update` reuses
//! the dependency cache to recompute only the affected rows, and is proved to
//! leave the table exactly as a full `generate` would.

use vstd::prelude::*;
use crate::infra_cache::{CacheView, InfraCache};
use crate::operation::Operation;
use crate::schema::{ObjectType, RailjsonObject};
use crate::store::{spec_apply_batch, spec_batch_ok, store_wf, ObjectStore, StoreView};
use crate::strmap::StrMap;

verus! {

/// The mathematical state of a layer table: the joined track data keyed by
/// object id.
pub type LayerView = Map<Seq<char>, Seq<(Seq<char>, u64)>>;

/// The length attribute of a track payload.
pub open spec fn track_length(obj: RailjsonObject) -> u64 {
    match obj {
        RailjsonObject::TrackSection { railjson } => railjson.length,
        _ => 0,
    }
}

/// The joined data of one referenced track: nothing when the track is not in
/// the object set.
pub open spec fn join_one(t: Seq<char>, s: StoreView) -> Seq<(Seq<char>, u64)> {
    if s.dom().contains((ObjectType::TrackSection, t)) {
        seq![(t, track_length(s[(ObjectType::TrackSection, t)]))]
    } else {
        Seq::<(Seq<char>, u64)>::empty()
    }
}

/// The joined data of a list of referenced tracks, in order.
pub open spec fn track_join(tracks: Seq<Seq<char>>, s: StoreView) -> Seq<(Seq<char>, u64)>
    decreases tracks.len(),
{
    if tracks.len() == 0 {
        Seq::<(Seq<char>, u64)>::empty()
    } else {
        track_join(tracks.drop_last(), s) + join_one(tracks.last(), s)
    }
}

/// The row a full recomputation produces for one object.
pub open spec fn spec_row(obj: RailjsonObject, s: StoreView) -> Seq<(Seq<char>, u64)> {
    track_join(obj.spec_cache_tracks(), s)
}

/// The table a full recomputation produces: one row per object of the kind.
pub open spec fn spec_generate(s: StoreView, kind: ObjectType) -> LayerView {
    Map::new(
        |id: Seq<char>| s.dom().contains((kind, id)),
        |id: Seq<char>| spec_row(s[(kind, id)], s),
    )
}

/// The object ids of the given kind depending on track `t`.
pub open spec fn deps_of_kind(c: CacheView, t: Seq<char>, kind: ObjectType) -> Set<Seq<char>> {
    Set::new(|id: Seq<char>| c.refs_of(t).contains((kind, id)))
}

/// The ids one operation adds to the affected set of a layer of `kind`:
/// creating or updating a track section affects its dependents of that kind;
/// any operation on an object of the kind affects that object.
pub open spec fn op_affected(op: Operation, c: CacheView, kind: ObjectType) -> Set<Seq<char>> {
    match op {
        Operation::Create(obj) => (if obj.spec_type() == ObjectType::TrackSection {
            deps_of_kind(c, obj.spec_id(), kind)
        } else {
            Set::<Seq<char>>::empty()
        }).union(
            if obj.spec_type() == kind {
                Set::<Seq<char>>::empty().insert(obj.spec_id())
            } else {
                Set::<Seq<char>>::empty()
            },
        ),
        Operation::Update(u) => (if u.obj_type == ObjectType::TrackSection {
            deps_of_kind(c, u.obj_id@, kind)
        } else {
            Set::<Seq<char>>::empty()
        }).union(
            if u.obj_type == kind {
                Set::<Seq<char>>::empty().insert(u.obj_id@)
            } else {
                Set::<Seq<char>>::empty()
            },
        ),
        Operation::Delete(r) => if r.obj_type == kind {
            Set::<Seq<char>>::empty().insert(r.obj_id@)
        } else {
            Set::<Seq<char>>::empty()
        },
    }
}

/// The affected-id set of a whole batch, against the final cache state.
pub open spec fn batch_affected(ops: Seq<Operation>, c: CacheView, kind: ObjectType) -> Set<
    Seq<char>,
>
    decreases ops.len(),
{
    if ops.len() == 0 {
        Set::<Seq<char>>::empty()
    } else {
        batch_affected(ops.drop_last(), c, kind).union(op_affected(ops.last(), c, kind))
    }
}

/// The table after deleting and regenerating exactly the rows in `ids`.
pub open spec fn spec_update_list(
    l: LayerView,
    ids: Set<Seq<char>>,
    s: StoreView,
    kind: ObjectType,
) -> LayerView {
    Map::new(
        |id: Seq<char>| (l.dom().contains(id) && !ids.contains(id)) || (ids.contains(id)
            && s.dom().contains((kind, id))),
        |id: Seq<char>| if ids.contains(id) {
            spec_row(s[(kind, id)], s)
        } else {
            l[id]
        },
    )
}

/// The table after an incremental update for a whole batch.
pub open spec fn spec_update_layer(
    l: LayerView,
    ops: Seq<Operation>,
    c: CacheView,
    s: StoreView,
    kind: ObjectType,
) -> LayerView {
    spec_update_list(l, batch_affected(ops, c, kind), s, kind)
}

/// Whether a sequence of ids has no repetition.
pub open spec fn seq_unique(s: Seq<Seq<char>>) -> bool {
    forall|p: int, q: int| 0 <= p < q < s.len() ==> s[p] != s[q]
}

/// Whether the vector holds a string equal to `x`.
pub(crate) fn contains_str(v: &Vec<String>, x: &String) -> (b: bool)
    ensures
        b == v.deep_view().contains(x@),
{
    let mut i: usize = 0;
    while i < v.len()
        invariant
            i <= v@.len(),
            forall|j: int| 0 <= j < i ==> v.deep_view()[j] != x@,
        decreases v@.len() - i,
    {
        if v[i] == *x {
            proof {
                assert(v.deep_view()[i as int] == x@);
            }
            return true;
        }
        i += 1;
    }
    proof {
        if v.deep_view().contains(x@) {
            let j = choose|j: int| 0 <= j < v.deep_view().len() && v.deep_view()[j] == x@;
            assert(v.deep_view()[j] != x@);
        }
    }
    false
}

/// Appends `id` unless an equal id is already present.
pub(crate) fn push_unique(res: &mut Vec<String>, id: &String)
    requires
        seq_unique(old(res).deep_view()),
    ensures
        seq_unique(final(res).deep_view()),
        forall|x: Seq<char>|
            #[trigger] final(res).deep_view().contains(x) <==> (old(res).deep_view().contains(x)
                || x == id@),
{
    let ghost base = res.deep_view();
    if !contains_str(res, id) {
        res.push(id.clone());
        proof {
            assert(res.deep_view() =~= base.push(id@));
            assert forall|p: int, q: int|
                0 <= p < q < res.deep_view().len() implies res.deep_view()[p]
                != res.deep_view()[q] by {
                if q == res.deep_view().len() - 1 {
                    assert(res.deep_view()[p] == base[p]);
                    if base[p] == id@ {
                        assert(base.contains(id@));
                    }
                }
            }
            assert forall|x: Seq<char>| #[trigger]
                res.deep_view().contains(x) implies (base.contains(x) || x == id@) by {
                let j = choose|j: int|
                    0 <= j < res.deep_view().len() && res.deep_view()[j] == x;
                if j < base.len() {
                    assert(base[j] == x);
                }
            }
            assert forall|x: Seq<char>| (base.contains(x) || x == id@) implies #[trigger]
                res.deep_view().contains(x) by {
                if base.contains(x) {
                    let j = choose|j: int| 0 <= j < base.len() && base[j] == x;
                    assert(res.deep_view()[j] == x);
                } else {
                    assert(res.deep_view()[res.deep_view().len() - 1] == x);
                }
            }
        }
    } else {
        proof {
            assert(base.contains(id@));
        }
    }
}

/// A denormalized projection table for one object kind.
pub struct LayerTable {
    kind: ObjectType,
    rows: StrMap<Vec<(String, u64)>>,
}

impl View for LayerTable {
    type V = LayerView;

    closed spec fn view(&self) -> LayerView {
        self.rows@
    }
}

impl LayerTable {
    pub closed spec fn inv(self) -> bool {
        self.rows.wf()
    }

    /// The object kind this table projects.
    pub closed spec fn spec_kind(self) -> ObjectType {
        self.kind
    }

    /// An empty table for the given kind.
    pub fn new(kind: ObjectType) -> (r: Self)
        ensures
            r.inv(),
            r.spec_kind() == kind,
            r@ == Map::<Seq<char>, Seq<(Seq<char>, u64)>>::empty(),
    {
        LayerTable { kind, rows: StrMap::new() }
    }

    /// The kind this table projects.
    pub fn kind(&self) -> (r: ObjectType)
        ensures
            r == self.spec_kind(),
    {
        self.kind
    }

    /// Removes every row unconditionally.
    pub fn clear(&mut self)
        ensures
            final(self).inv(),
            final(self).spec_kind() == old(self).spec_kind(),
            final(self)@ == Map::<Seq<char>, Seq<(Seq<char>, u64)>>::empty(),
    {
        self.rows = StrMap::new();
    }

    /// Whether a row for `id` exists.
    pub fn contains_id(&self, id: &String) -> (r: bool)
        ensures
            r == self@.dom().contains(id@),
    {
        self.rows.contains_key(id)
    }

    /// The number of rows.
    pub fn row_count(&self) -> (r: usize)
        requires
            self.inv(),
        ensures
            r == self@.dom().len(),
            self@.dom().finite(),
    {
        self.rows.len()
    }

    /// The joined track data of the row for `id`, if present.
    pub fn get_row(&self, id: &String) -> (r: Option<&Vec<(String, u64)>>)
        requires
            self.inv(),
        ensures
            match r {
                Some(row) => self@.dom().contains(id@) && row.deep_view() == self@[id@],
                None => !self@.dom().contains(id@),
            },
    {
        self.rows.get(id)
    }

    /// The ids of all rows, pairwise distinct.
    pub fn row_ids(&self) -> (r: Vec<String>)
        requires
            self.inv(),
        ensures
            seq_unique(r.deep_view()),
            forall|k: Seq<char>| #[trigger] r.deep_view().contains(k) <==> self@.dom().contains(k),
    {
        self.rows.keys()
    }

    /// The row a full recomputation produces for `obj`: its referenced
    /// tracks joined with their current payloads.
    fn make_row(obj: &RailjsonObject, store: &ObjectStore) -> (r: Vec<(String, u64)>)
        requires
            store.inv(),
        ensures
            r.deep_view() == spec_row(*obj, store@),
    {
        let tracks = obj.get_cache_tracks();
        let mut row: Vec<(String, u64)> = Vec::new();
        let ghost td = tracks.deep_view();
        let mut i: usize = 0;
        while i < tracks.len()
            invariant
                store.inv(),
                i <= tracks@.len(),
                td == tracks.deep_view(),
                row.deep_view() == track_join(td.take(i as int), store@),
            decreases tracks@.len() - i,
        {
            let ghost pre = row.deep_view();
            match store.get(ObjectType::TrackSection, &tracks[i]) {
                Some(track_obj) => {
                    let len = match track_obj {
                        RailjsonObject::TrackSection { railjson } => railjson.length,
                        _ => 0,
                    };
                    row.push((tracks[i].clone(), len));
                    proof {
                        assert(row.deep_view() =~= pre.push((td[i as int], len)));
                        assert(join_one(td[i as int], store@) =~= seq![
                            (td[i as int], track_length(store@[(ObjectType::TrackSection, td[i as int])])),
                        ]);
                        assert(row.deep_view() =~= pre + join_one(td[i as int], store@));
                    }
                },
                None => {
                    proof {
                        assert(join_one(td[i as int], store@) =~= Seq::<(Seq<char>, u64)>::empty());
                        assert(row.deep_view() =~= pre + join_one(td[i as int], store@));
                    }
                },
            }
            proof {
                assert(td.take(i + 1).drop_last() =~= td.take(i as int));
                assert(td.take(i + 1).last() == td[i as int]);
                assert(row.deep_view() == track_join(td.take(i + 1), store@));
            }
            i += 1;
        }
        proof {
            assert(td.take(td.len() as int) =~= td);
        }
        row
    }

    /// Deletes and regenerates exactly the rows whose id is in `obj_ids`.
    pub fn update_list(&mut self, store: &ObjectStore, obj_ids: &Vec<String>)
        requires
            old(self).inv(),
            store.inv(),
            seq_unique(obj_ids.deep_view()),
        ensures
            final(self).inv(),
            final(self).spec_kind() == old(self).spec_kind(),
            final(self)@ == spec_update_list(
                old(self)@,
                obj_ids.deep_view().to_set(),
                store@,
                old(self).spec_kind(),
            ),
    {
        let ghost l0 = self@;
        let ghost ids = obj_ids.deep_view();
        let kind = self.kind;
        // Delete all affected rows first.
        let mut i: usize = 0;
        while i < obj_ids.len()
            invariant
                self.inv(),
                self.spec_kind() == old(self).spec_kind(),
                i <= ids.len(),
                ids == obj_ids.deep_view(),
                forall|k: Seq<char>|
                    #[trigger] self@.dom().contains(k) <==> (l0.dom().contains(k)
                        && !ids.take(i as int).contains(k)),
                forall|k: Seq<char>| #[trigger] self@.dom().contains(k) ==> self@[k] == l0[k],
            decreases ids.len() - i,
        {
            let ghost pre = self@;
            let _ = self.rows.remove(&obj_ids[i]);
            proof {
                assert(self@ == pre.remove(ids[i as int]));
                assert forall|k: Seq<char>| #[trigger]
                    self@.dom().contains(k) <==> (l0.dom().contains(k) && !ids.take(
                    i + 1,
                ).contains(k)) by {
                    if ids.take(i + 1).contains(k) {
                        let j = choose|j: int|
                            0 <= j < i + 1 && (#[trigger] ids.take(i + 1)[j]) == k;
                        if j < i {
                            assert(ids.take(i as int)[j] == k);
                            assert(ids.take(i as int).contains(k));
                        }
                    } else {
                        assert(!ids.take(i as int).contains(k)) by {
                            if ids.take(i as int).contains(k) {
                                let j = choose|j: int|
                                    0 <= j < i && ids.take(i as int)[j] == k;
                                assert(ids.take(i + 1)[j] == k);
                            }
                        }
                        assert(k != ids[i as int]) by {
                            if k == ids[i as int] {
                                assert(ids.take(i + 1)[i as int] == k);
                            }
                        }
                    }
                }
            }
            i += 1;
        }
        proof {
            assert(ids.take(ids.len() as int) =~= ids);
        }
        let ghost l1 = self@;
        // Regenerate the affected rows that exist in the object set.
        let mut i: usize = 0;
        while i < obj_ids.len()
            invariant
                self.inv(),
                self.spec_kind() == old(self).spec_kind(),
                kind == old(self).spec_kind(),
                store.inv(),
                i <= ids.len(),
                ids == obj_ids.deep_view(),
                seq_unique(ids),
                forall|k: Seq<char>|
                    #[trigger] l1.dom().contains(k) <==> (l0.dom().contains(k) && !ids.contains(
                        k,
                    )),
                forall|k: Seq<char>| #[trigger] l1.dom().contains(k) ==> l1[k] == l0[k],
                forall|k: Seq<char>|
                    #[trigger] self@.dom().contains(k) <==> (l1.dom().contains(k) || (ids.take(
                        i as int,
                    ).contains(k) && store@.dom().contains((kind, k)))),
                forall|k: Seq<char>|
                    #[trigger] self@.dom().contains(k) ==> self@[k] == (if ids.take(
                        i as int,
                    ).contains(k) {
                        spec_row(store@[(kind, k)], store@)
                    } else {
                        l1[k]
                    }),
            decreases ids.len() - i,
        {
            let ghost pre = self@;
            match store.get(kind, &obj_ids[i]) {
                Some(obj) => {
                    let row = Self::make_row(obj, store);
                    self.rows.set(obj_ids[i].clone(), row);
                    proof {
                        assert(self@ == pre.insert(ids[i as int], spec_row(
                            store@[(kind, ids[i as int])],
                            store@,
                        )));
                    }
                },
                None => {},
            }
            proof {
                let t1 = ids.take(i + 1);
                assert forall|k: Seq<char>| #[trigger]
                    t1.contains(k) <==> (ids.take(i as int).contains(k)
                    || k == ids[i as int]) by {
                    if t1.contains(k) {
                        let j = choose|j: int| 0 <= j < i + 1 && t1[j] == k;
                        if j < i {
                            assert(ids.take(i as int)[j] == k);
                        }
                    } else {
                        if ids.take(i as int).contains(k) {
                            let j = choose|j: int| 0 <= j < i && ids.take(i as int)[j] == k;
                            assert(t1[j] == k);
                        }
                        if k == ids[i as int] {
                            assert(t1[i as int] == k);
                        }
                    }
                }
            }
            i += 1;
        }
        proof {
            assert(ids.take(ids.len() as int) =~= ids);
            assert forall|k: Seq<char>|
                #[trigger] ids.to_set().contains(k) == ids.contains(k) by {}
            assert(self@ =~= spec_update_list(l0, ids.to_set(), store@, old(self).spec_kind()));
        }
    }

    /// Full recomputation: replaces every row from the object set.
    pub fn generate(&mut self, store: &ObjectStore)
        requires
            old(self).inv(),
            store.inv(),
        ensures
            final(self).inv(),
            final(self).spec_kind() == old(self).spec_kind(),
            final(self)@ == spec_generate(store@, old(self).spec_kind()),
    {
        let kind = self.kind;
        self.rows = StrMap::new();
        let ghost objs = store.spec_objects();
        let count = store.object_count();
        let mut i: usize = 0;
        while i < count
            invariant
                self.inv(),
                self.spec_kind() == old(self).spec_kind(),
                kind == old(self).spec_kind(),
                store.inv(),
                count == objs.len(),
                objs == store.spec_objects(),
                i <= objs.len(),
                self@ == gen_prefix(objs.take(i as int), store@, kind),
            decreases objs.len() - i,
        {
            let obj = store.object_at(i);
            if obj.get_type() == kind {
                let row = Self::make_row(obj, store);
                self.rows.set(obj.get_id().clone(), row);
            }
            proof {
                let t1 = objs.take(i + 1);
                assert(t1.drop_last() =~= objs.take(i as int));
                assert(t1.last() == objs[i as int]);
                assert(self@ == gen_prefix(t1, store@, kind));
            }
            i += 1;
        }
        proof {
            assert(objs.take(objs.len() as int) =~= objs);
            store.lemma_view_characterization();
            lemma_gen_prefix_full(objs, store@, kind, *store);
        }
    }
}

/// Adds every dependent of the given track with the layer's kind to `res`.
pub(crate) fn add_track_dependents(
    res: &mut Vec<String>,
    infra_cache: &InfraCache,
    track_id: &String,
    kind: ObjectType,
)
    requires
        infra_cache.inv(),
        seq_unique(old(res).deep_view()),
    ensures
        seq_unique(final(res).deep_view()),
        forall|x: Seq<char>|
            #[trigger] final(res).deep_view().contains(x) <==> (old(res).deep_view().contains(x)
                || deps_of_kind(infra_cache@, track_id@, kind).contains(x)),
{
    let refs = infra_cache.get_track_refs_type(track_id, kind);
    let ghost rd = refs.deep_view();
    let ghost base = res.deep_view();
    let mut j: usize = 0;
    while j < refs.len()
        invariant
            j <= rd.len(),
            rd == refs.deep_view(),
            seq_unique(res.deep_view()),
            forall|x: (ObjectType, Seq<char>)|
                #[trigger] rd.contains(x) <==> (infra_cache@.refs_of(track_id@).contains(x)
                    && x.0 == kind),
            forall|x: Seq<char>|
                #[trigger] res.deep_view().contains(x) <==> (base.contains(x) || (exists|jj: int|
                    0 <= jj < j && rd[jj].1 == x)),
        decreases rd.len() - j,
    {
        push_unique(res, &refs[j].obj_id);
        proof {
            assert(rd[j as int] == refs@[j as int]@);
            assert(refs@[j as int].obj_id@ == rd[j as int].1);
            assert forall|x: Seq<char>| #[trigger]
                res.deep_view().contains(x) <==> (base.contains(x) || (exists|jj: int|
                0 <= jj < j + 1 && rd[jj].1 == x)) by {
                if res.deep_view().contains(x) {
                    if !base.contains(x) {
                        if x == rd[j as int].1 {
                            assert(0 <= j < j + 1 && rd[j as int].1 == x);
                        }
                    }
                }
            }
        }
        j += 1;
    }
    proof {
        assert forall|x: Seq<char>| #[trigger]
            res.deep_view().contains(x) <==> (base.contains(x) || deps_of_kind(
            infra_cache@,
            track_id@,
            kind,
        ).contains(x)) by {
            if deps_of_kind(infra_cache@, track_id@, kind).contains(x) {
                assert(infra_cache@.refs_of(track_id@).contains((kind, x)));
                assert(rd.contains((kind, x)));
                let jj = choose|jj: int| 0 <= jj < rd.len() && rd[jj] == (kind, x);
                assert(rd[jj].1 == x);
            }
            if res.deep_view().contains(x) && !base.contains(x) {
                let jj = choose|jj: int| 0 <= jj < rd.len() && rd[jj].1 == x;
                assert(rd.contains(rd[jj]));
                assert(infra_cache@.refs_of(track_id@).contains(rd[jj]));
                assert(rd[jj].0 == kind);
                assert(rd[jj] == (kind, x));
                assert(deps_of_kind(infra_cache@, track_id@, kind).contains(x));
            }
        }
    }
}

/// The deduplicated affected-id set of a whole batch for a layer of the
/// given kind, computed against the cache state after the batch was applied:
/// one pass over the batch, never per individual operation.
pub fn affected_ids(operations: &Vec<Operation>, infra_cache: &InfraCache, kind: ObjectType) -> (r:
    Vec<String>)
    requires
        infra_cache.inv(),
    ensures
        seq_unique(r.deep_view()),
        forall|x: Seq<char>|
            #[trigger] r.deep_view().contains(x) <==> batch_affected(
                operations@,
                infra_cache@,
                kind,
            ).contains(x),
{
    let mut res: Vec<String> = Vec::new();
    let ghost c = infra_cache@;
    let mut i: usize = 0;
    while i < operations.len()
        invariant
            infra_cache.inv(),
            c == infra_cache@,
            i <= operations@.len(),
            seq_unique(res.deep_view()),
            forall|x: Seq<char>|
                #[trigger] res.deep_view().contains(x) <==> batch_affected(
                    operations@.take(i as int),
                    c,
                    kind,
                ).contains(x),
        decreases operations@.len() - i,
    {
        let ghost pre = res.deep_view();
        let ghost op = operations@[i as int];
        match &operations[i] {
            Operation::Create(obj) => {
                if obj.get_type() == ObjectType::TrackSection {
                    add_track_dependents(&mut res, infra_cache, obj.get_id(), kind);
                }
                if obj.get_type() == kind {
                    push_unique(&mut res, obj.get_id());
                }
            },
            Operation::Update(u) => {
                if u.obj_type == ObjectType::TrackSection {
                    add_track_dependents(&mut res, infra_cache, &u.obj_id, kind);
                }
                if u.obj_type == kind {
                    push_unique(&mut res, &u.obj_id);
                }
            },
            Operation::Delete(obj_ref) => {
                if obj_ref.obj_type == kind {
                    push_unique(&mut res, &obj_ref.obj_id);
                }
            },
        }
        proof {
            assert forall|x: Seq<char>| #[trigger]
                res.deep_view().contains(x) <==> (pre.contains(x) || op_affected(
                op,
                c,
                kind,
            ).contains(x)) by {}
            let t1 = operations@.take(i + 1);
            assert(t1.drop_last() =~= operations@.take(i as int));
            assert(t1.last() == op);
            assert(batch_affected(t1, c, kind) == batch_affected(
                operations@.take(i as int),
                c,
                kind,
            ).union(op_affected(op, c, kind)));
        }
        i += 1;
    }
    proof {
        assert(operations@.take(operations@.len() as int) =~= operations@);
    }
    res
}

impl LayerTable {
    /// Incremental recomputation for one batch: requires the cache to
    /// already reflect the object set after the batch was applied. Deletes
    /// and regenerates exactly the affected rows, computed from the whole
    /// batch at once.
    pub fn update(
        &mut self,
        operations: &Vec<Operation>,
        infra_cache: &InfraCache,
        store: &ObjectStore,
    )
        requires
            old(self).inv(),
            infra_cache.inv(),
            store.inv(),
        ensures
            final(self).inv(),
            final(self).spec_kind() == old(self).spec_kind(),
            final(self)@ == spec_update_layer(
                old(self)@,
                operations@,
                infra_cache@,
                store@,
                old(self).spec_kind(),
            ),
    {
        let kind = self.kind();
        let ids = affected_ids(operations, infra_cache, kind);
        self.update_list(store, &ids);
        proof {
            assert(ids.deep_view().to_set() =~= batch_affected(
                operations@,
                infra_cache@,
                old(self).spec_kind(),
            ));
        }
    }
}

/// Whether `op` writes the store entry at `key`.
pub open spec fn op_writes(op: Operation, key: (ObjectType, Seq<char>)) -> bool {
    match op {
        Operation::Create(obj) => obj.spec_ref() == key,
        Operation::Delete(r) => r@ == key,
        Operation::Update(u) => (u.obj_type, u.obj_id@) == key || u.railjson.spec_ref() == key,
    }
}

/// A store entry no operation writes is unchanged by the batch.
proof fn lemma_stable_entry(s: StoreView, ops: Seq<Operation>, key: (ObjectType, Seq<char>))
    requires
        forall|i: int| 0 <= i < ops.len() ==> !op_writes(#[trigger] ops[i], key),
    ensures
        spec_apply_batch(s, ops).dom().contains(key) == s.dom().contains(key),
        s.dom().contains(key) ==> spec_apply_batch(s, ops)[key] == s[key],
    decreases ops.len(),
{
    if ops.len() > 0 {
        assert(forall|i: int|
            0 <= i < ops.drop_last().len() ==> !op_writes(#[trigger] ops.drop_last()[i], key));
        lemma_stable_entry(s, ops.drop_last(), key);
        assert(!op_writes(ops[ops.len() - 1], key));
    }
}

/// Each operation's affected ids are in the batch's affected set.
proof fn lemma_op_affected_subset(
    ops: Seq<Operation>,
    c: CacheView,
    kind: ObjectType,
    i: int,
    x: Seq<char>,
)
    requires
        0 <= i < ops.len(),
        op_affected(ops[i], c, kind).contains(x),
    ensures
        batch_affected(ops, c, kind).contains(x),
    decreases ops.len(),
{
    if i < ops.len() - 1 {
        assert(ops.drop_last()[i] == ops[i]);
        lemma_op_affected_subset(ops.drop_last(), c, kind, i, x);
    }
}

/// Whether `op` deletes the track section with id `t`.
pub open spec fn op_deletes_track(op: Operation, t: Seq<char>) -> bool {
    match op {
        Operation::Delete(r) => r@ == (ObjectType::TrackSection, t),
        _ => false,
    }
}

/// No operation of the batch deletes a track section that an object of the
/// layer's kind still references in the final object set.
pub open spec fn no_dangling_track_delete(
    ops: Seq<Operation>,
    s1: StoreView,
    kind: ObjectType,
) -> bool {
    forall|i: int, t: Seq<char>|
        0 <= i < ops.len() && #[trigger] op_deletes_track(ops[i], t) ==> (forall|id: Seq<char>|
            #[trigger] s1.dom().contains((kind, id)) ==> !s1[(kind, id)].spec_cache_tracks()
                .contains(t))
}

/// Whether the cache's forward maps agree with the object set: an entry per
/// stored signal and speed section, listing exactly its referenced tracks.
pub open spec fn reflects(c: CacheView, s: StoreView) -> bool {
    &&& forall|id: Seq<char>|
        #![trigger c.signal_deps.dom().contains(id)]
        #![trigger s.dom().contains((ObjectType::Signal, id))]
        c.signal_deps.dom().contains(id) <==> s.dom().contains((ObjectType::Signal, id))
    &&& forall|id: Seq<char>|
        #[trigger] s.dom().contains((ObjectType::Signal, id)) ==> seq![c.signal_deps[id]] == s[
            (ObjectType::Signal, id)
        ].spec_cache_tracks()
    &&& forall|id: Seq<char>|
        #![trigger c.speed_deps.dom().contains(id)]
        #![trigger s.dom().contains((ObjectType::SpeedSection, id))]
        c.speed_deps.dom().contains(id) <==> s.dom().contains((ObjectType::SpeedSection, id))
    &&& forall|id: Seq<char>|
        #[trigger] s.dom().contains((ObjectType::SpeedSection, id)) ==> c.speed_deps[id] == s[
            (ObjectType::SpeedSection, id)
        ].spec_cache_tracks()
}

proof fn lemma_create_reflects(c: CacheView, s: StoreView, obj: RailjsonObject)
    requires
        reflects(c, s),
        !s.dom().contains(obj.spec_ref()),
    ensures
        crate::infra_cache::spec_create_ok(c, obj),
        reflects(crate::infra_cache::spec_create(c, obj), s.insert(obj.spec_ref(), obj)),
{
    let c1 = crate::infra_cache::spec_create(c, obj);
    let s1 = s.insert(obj.spec_ref(), obj);
    match obj {
        RailjsonObject::Signal { railjson } => {
            assert(obj.spec_cache_tracks() =~= seq![railjson.track@]);
        },
        _ => {},
    }
    assert forall|id: Seq<char>|
        c1.signal_deps.dom().contains(id) == s1.dom().contains(
            (ObjectType::Signal, id),
        ) by {
        if (ObjectType::Signal, id) == obj.spec_ref() {
            assert(obj.spec_type() == ObjectType::Signal);
        }
    }
    assert forall|id: Seq<char>| #[trigger]
        s1.dom().contains((ObjectType::Signal, id)) implies seq![c1.signal_deps[id]] == s1[
        (ObjectType::Signal, id)
    ].spec_cache_tracks() by {
        if (ObjectType::Signal, id) == obj.spec_ref() {
            assert(s1[(ObjectType::Signal, id)] == obj);
        } else {
            assert(s1[(ObjectType::Signal, id)] == s[(ObjectType::Signal, id)]);
            assert(s.dom().contains((ObjectType::Signal, id)));
        }
    }
    assert forall|id: Seq<char>|
        c1.speed_deps.dom().contains(id) == s1.dom().contains(
            (ObjectType::SpeedSection, id),
        ) by {
        if (ObjectType::SpeedSection, id) == obj.spec_ref() {
            assert(obj.spec_type() == ObjectType::SpeedSection);
        }
    }
    assert forall|id: Seq<char>| #[trigger]
        s1.dom().contains((ObjectType::SpeedSection, id)) implies c1.speed_deps[id] == s1[
        (ObjectType::SpeedSection, id)
    ].spec_cache_tracks() by {
        if (ObjectType::SpeedSection, id) == obj.spec_ref() {
            assert(s1[(ObjectType::SpeedSection, id)] == obj);
        } else {
            assert(s1[(ObjectType::SpeedSection, id)] == s[(ObjectType::SpeedSection, id)]);
            assert(s.dom().contains((ObjectType::SpeedSection, id)));
        }
    }
}

proof fn lemma_delete_reflects(c: CacheView, s: StoreView, r: (ObjectType, Seq<char>))
    requires
        reflects(c, s),
        s.dom().contains(r),
    ensures
        crate::infra_cache::spec_delete_ok(c, r),
        reflects(crate::infra_cache::spec_delete(c, r), s.remove(r)),
{
    let c1 = crate::infra_cache::spec_delete(c, r);
    let s1 = s.remove(r);
    assert forall|id: Seq<char>|
        c1.signal_deps.dom().contains(id) == s1.dom().contains(
            (ObjectType::Signal, id),
        ) by {}
    assert forall|id: Seq<char>| #[trigger]
        s1.dom().contains((ObjectType::Signal, id)) implies seq![c1.signal_deps[id]] == s1[
        (ObjectType::Signal, id)
    ].spec_cache_tracks() by {
        assert(s.dom().contains((ObjectType::Signal, id)));
        assert((ObjectType::Signal, id) != r);
    }
    assert forall|id: Seq<char>|
        c1.speed_deps.dom().contains(id) == s1.dom().contains(
            (ObjectType::SpeedSection, id),
        ) by {}
    assert forall|id: Seq<char>| #[trigger]
        s1.dom().contains((ObjectType::SpeedSection, id)) implies c1.speed_deps[id] == s1[
        (ObjectType::SpeedSection, id)
    ].spec_cache_tracks() by {
        assert(s.dom().contains((ObjectType::SpeedSection, id)));
        assert((ObjectType::SpeedSection, id) != r);
    }
}

/// Applying one admissible, consistent operation to the object set and to
/// the cache together keeps the cache coherent with the object set — and
/// the cache accepts every operation the object set accepts.
pub proof fn lemma_apply_preserves_reflects(c: CacheView, s: StoreView, op: Operation)
    requires
        reflects(c, s),
        op.spec_consistent(),
        crate::store::store_apply_ok(s, op),
    ensures
        crate::infra_cache::spec_apply_ok(c, op),
        reflects(crate::infra_cache::spec_apply(c, op), crate::store::store_apply(s, op)),
{
    match op {
        Operation::Create(obj) => {
            lemma_create_reflects(c, s, obj);
        },
        Operation::Delete(r) => {
            lemma_delete_reflects(c, s, r@);
        },
        Operation::Update(u) => {
            let obj = u.railjson;
            let key = (u.obj_type, u.obj_id@);
            assert(obj.spec_ref() == key);
            lemma_delete_reflects(c, s, key);
            let cd = crate::infra_cache::spec_delete(c, key);
            let sd = s.remove(key);
            lemma_create_reflects(cd, sd, obj);
        },
    }
}

/// Applying a whole admissible, consistent batch to the object set and to
/// the cache together keeps the cache coherent with the object set.
pub proof fn lemma_batch_preserves_reflects(c: CacheView, s: StoreView, ops: Seq<Operation>)
    requires
        reflects(c, s),
        crate::operation::batch_consistent(ops),
        spec_batch_ok(s, ops),
    ensures
        crate::infra_cache::spec_apply_ops_ok(c, ops),
        reflects(crate::infra_cache::spec_apply_ops(c, ops), spec_apply_batch(s, ops)),
    decreases ops.len(),
{
    if ops.len() > 0 {
        assert(forall|i: int|
            0 <= i < ops.drop_last().len() ==> (#[trigger] ops.drop_last()[i]).spec_consistent());
        lemma_batch_preserves_reflects(c, s, ops.drop_last());
        assert(ops[ops.len() - 1].spec_consistent());
        lemma_apply_preserves_reflects(
            crate::infra_cache::spec_apply_ops(c, ops.drop_last()),
            spec_apply_batch(s, ops.drop_last()),
            ops.last(),
        );
    }
}

/// An object of the layer's kind that references track `t` in the final
/// object set is a dependent the cache reports for `t`.
proof fn lemma_dependent_in_deps(
    c: CacheView,
    s1: StoreView,
    kind: ObjectType,
    id: Seq<char>,
    t: Seq<char>,
)
    requires
        c.wf(),
        reflects(c, s1),
        store_wf(s1),
        s1.dom().contains((kind, id)),
        s1[(kind, id)].spec_cache_tracks().contains(t),
    ensures
        deps_of_kind(c, t, kind).contains(id),
{
    let obj = s1[(kind, id)];
    assert(obj.spec_ref() == (kind, id));
    match obj {
        RailjsonObject::Signal { railjson } => {
            assert(kind == ObjectType::Signal);
            assert(seq![c.signal_deps[id]] == obj.spec_cache_tracks());
            assert(obj.spec_cache_tracks() =~= seq![railjson.track@]);
            assert(t == railjson.track@);
            assert(c.signal_deps.dom().contains(id));
            assert(c.signal_deps[id] == t);
            assert(c.forward_lists((kind, id), t));
            assert(c.refs_of(t).contains((kind, id)));
        },
        RailjsonObject::SpeedSection { .. } => {
            assert(kind == ObjectType::SpeedSection);
            assert(c.speed_deps.dom().contains(id));
            assert(c.speed_deps[id].contains(t));
            assert(c.forward_lists((kind, id), t));
            assert(c.refs_of(t).contains((kind, id)));
        },
        _ => {
            assert(obj.spec_cache_tracks() =~= Seq::<Seq<char>>::empty());
            assert(false);
        },
    }
}

/// A joined row only depends on the entries of the referenced tracks.
proof fn lemma_track_join_stable(tracks: Seq<Seq<char>>, s0: StoreView, s1: StoreView)
    requires
        forall|t: Seq<char>|
            #[trigger] tracks.contains(t) ==> (s1.dom().contains((ObjectType::TrackSection, t))
                == s0.dom().contains((ObjectType::TrackSection, t)) && (s0.dom().contains(
                (ObjectType::TrackSection, t),
            ) ==> s1[(ObjectType::TrackSection, t)] == s0[(ObjectType::TrackSection, t)])),
    ensures
        track_join(tracks, s0) == track_join(tracks, s1),
    decreases tracks.len(),
{
    if tracks.len() > 0 {
        assert forall|t: Seq<char>| #[trigger]
            tracks.drop_last().contains(t) implies tracks.contains(t) by {
            let j = choose|j: int|
                0 <= j < tracks.drop_last().len() && tracks.drop_last()[j] == t;
            assert(tracks[j] == t);
        }
        lemma_track_join_stable(tracks.drop_last(), s0, s1);
        assert(tracks.contains(tracks.last())) by {
            assert(tracks[tracks.len() - 1] == tracks.last());
        }
        assert(join_one(tracks.last(), s0) == join_one(tracks.last(), s1));
    }
}

/// Incremental/full equivalence: for a batch that applies cleanly, with the
/// cache reflecting the final object set and no delete of a still-referenced
/// track, the incremental update of a fully generated table equals a full
/// generation from the final object set.
pub proof fn lemma_update_matches_generate(
    s0: StoreView,
    ops: Seq<Operation>,
    c: CacheView,
    kind: ObjectType,
)
    requires
        store_wf(s0),
        crate::operation::batch_consistent(ops),
        spec_batch_ok(s0, ops),
        c.wf(),
        reflects(c, spec_apply_batch(s0, ops)),
        no_dangling_track_delete(ops, spec_apply_batch(s0, ops), kind),
    ensures
        spec_update_layer(spec_generate(s0, kind), ops, c, spec_apply_batch(s0, ops), kind)
            == spec_generate(spec_apply_batch(s0, ops), kind),
{
    let s1 = spec_apply_batch(s0, ops);
    let aff = batch_affected(ops, c, kind);
    let layer0 = spec_generate(s0, kind);
    let result = spec_update_layer(layer0, ops, c, s1, kind);
    let goal = spec_generate(s1, kind);
    crate::store::lemma_batch_preserves_store_wf(s0, ops);
    assert forall|id: Seq<char>| #[trigger]
        result.dom().contains(id) == goal.dom().contains(id) && (goal.dom().contains(id)
        ==> result[id] == goal[id]) by {
        if aff.contains(id) {
            assert(result.dom().contains(id) == s1.dom().contains((kind, id)));
            if s1.dom().contains((kind, id)) {
                assert(result[id] == spec_row(s1[(kind, id)], s1));
            }
        } else {
            // No operation writes this object's entry.
            assert forall|i: int|
                0 <= i < ops.len() implies !op_writes(#[trigger] ops[i], (kind, id)) by {
                if op_writes(ops[i], (kind, id)) {
                    assert(ops[i].spec_consistent());
                    assert(op_affected(ops[i], c, kind).contains(id)) by {
                        match ops[i] {
                            Operation::Create(obj) => {
                                assert(obj.spec_type() == kind && obj.spec_id() == id);
                            },
                            Operation::Delete(r) => {
                                assert(r.obj_type == kind && r.obj_id@ == id);
                            },
                            Operation::Update(u) => {
                                assert(u.obj_type == kind && u.obj_id@ == id);
                            },
                        }
                    }
                    lemma_op_affected_subset(ops, c, kind, i, id);
                }
            }
            lemma_stable_entry(s0, ops, (kind, id));
            assert(s1.dom().contains((kind, id)) == s0.dom().contains((kind, id)));
            if s0.dom().contains((kind, id)) {
                let obj = s0[(kind, id)];
                assert(s1[(kind, id)] == obj);
                // No operation writes any referenced track's entry either.
                assert forall|t: Seq<char>| #[trigger]
                    obj.spec_cache_tracks().contains(t) implies (s1.dom().contains(
                    (ObjectType::TrackSection, t),
                ) == s0.dom().contains((ObjectType::TrackSection, t)) && (s0.dom().contains(
                    (ObjectType::TrackSection, t),
                ) ==> s1[(ObjectType::TrackSection, t)] == s0[
                    (ObjectType::TrackSection, t)
                ])) by {
                    assert forall|i: int|
                        0 <= i < ops.len() implies !op_writes(
                        #[trigger] ops[i],
                        (ObjectType::TrackSection, t),
                    ) by {
                        if op_writes(ops[i], (ObjectType::TrackSection, t)) {
                            assert(ops[i].spec_consistent());
                            lemma_dependent_in_deps(c, s1, kind, id, t);
                            match ops[i] {
                                Operation::Create(o) => {
                                    assert(o.spec_type() == ObjectType::TrackSection
                                        && o.spec_id() == t);
                                    assert(op_affected(ops[i], c, kind).contains(id));
                                    lemma_op_affected_subset(ops, c, kind, i, id);
                                },
                                Operation::Update(u) => {
                                    assert(u.obj_type == ObjectType::TrackSection && u.obj_id@
                                        == t);
                                    assert(op_affected(ops[i], c, kind).contains(id));
                                    lemma_op_affected_subset(ops, c, kind, i, id);
                                },
                                Operation::Delete(r) => {
                                    assert(op_deletes_track(ops[i], t));
                                    assert(!s1[(kind, id)].spec_cache_tracks().contains(t));
                                },
                            }
                        }
                    }
                    lemma_stable_entry(s0, ops, (ObjectType::TrackSection, t));
                }
                lemma_track_join_stable(obj.spec_cache_tracks(), s0, s1);
                assert(result[id] == track_join(obj.spec_cache_tracks(), s0));
                assert(goal[id] == track_join(s1[(kind, id)].spec_cache_tracks(), s1));
            }
        }
    }
    assert(result =~= goal);
}

/// The table built from a prefix of the stored payloads.
spec fn gen_prefix(objs: Seq<RailjsonObject>, s: StoreView, kind: ObjectType) -> LayerView
    decreases objs.len(),
{
    if objs.len() == 0 {
        Map::<Seq<char>, Seq<(Seq<char>, u64)>>::empty()
    } else {
        let pre = gen_prefix(objs.drop_last(), s, kind);
        if objs.last().spec_type() == kind {
            pre.insert(objs.last().spec_id(), spec_row(objs.last(), s))
        } else {
            pre
        }
    }
}

proof fn lemma_gen_prefix_dom(objs: Seq<RailjsonObject>, s: StoreView, kind: ObjectType)
    ensures
        forall|id: Seq<char>|
            #[trigger] gen_prefix(objs, s, kind).dom().contains(id) <==> (exists|j: int|
                0 <= j < objs.len() && objs[j].spec_type() == kind && objs[j].spec_id() == id),
    decreases objs.len(),
{
    if objs.len() > 0 {
        lemma_gen_prefix_dom(objs.drop_last(), s, kind);
        assert forall|id: Seq<char>| #[trigger]
            gen_prefix(objs, s, kind).dom().contains(id) implies (exists|j: int|
            0 <= j < objs.len() && objs[j].spec_type() == kind && objs[j].spec_id() == id) by {
            if objs.last().spec_type() == kind && id == objs.last().spec_id() {
                assert(objs[objs.len() - 1].spec_type() == kind && objs[objs.len() - 1].spec_id()
                    == id);
            } else {
                assert(gen_prefix(objs.drop_last(), s, kind).dom().contains(id));
                let j = choose|j: int|
                    0 <= j < objs.drop_last().len() && objs.drop_last()[j].spec_type() == kind
                        && objs.drop_last()[j].spec_id() == id;
                assert(objs[j].spec_type() == kind && objs[j].spec_id() == id);
            }
        }
        assert forall|id: Seq<char>| (exists|j: int|
            0 <= j < objs.len() && objs[j].spec_type() == kind && objs[j].spec_id() == id)
            implies #[trigger] gen_prefix(objs, s, kind).dom().contains(id) by {
            let j = choose|j: int|
                0 <= j < objs.len() && objs[j].spec_type() == kind && objs[j].spec_id() == id;
            if j < objs.len() - 1 {
                assert(objs.drop_last()[j].spec_type() == kind && objs.drop_last()[j].spec_id()
                    == id);
                assert(gen_prefix(objs.drop_last(), s, kind).dom().contains(id));
            }
        }
    }
}

proof fn lemma_gen_prefix_get(objs: Seq<RailjsonObject>, s: StoreView, kind: ObjectType, j: int)
    requires
        0 <= j < objs.len(),
        objs[j].spec_type() == kind,
        forall|p: int, q: int|
            0 <= p < q < objs.len() ==> objs[p].spec_ref() != objs[q].spec_ref(),
    ensures
        gen_prefix(objs, s, kind).dom().contains(objs[j].spec_id()),
        gen_prefix(objs, s, kind)[objs[j].spec_id()] == spec_row(objs[j], s),
    decreases objs.len(),
{
    lemma_gen_prefix_dom(objs, s, kind);
    if j == objs.len() - 1 {
    } else {
        lemma_gen_prefix_get(objs.drop_last(), s, kind, j);
        if objs.last().spec_type() == kind {
            assert(objs[j].spec_ref() != objs.last().spec_ref());
            assert(objs[j].spec_id() != objs.last().spec_id());
        }
    }
}

proof fn lemma_gen_prefix_full(
    objs: Seq<RailjsonObject>,
    s: StoreView,
    kind: ObjectType,
    store: ObjectStore,
)
    requires
        store.inv(),
        objs == store.spec_objects(),
        s == store@,
    ensures
        gen_prefix(objs, s, kind) == spec_generate(s, kind),
{
    store.lemma_view_characterization();
    lemma_gen_prefix_dom(objs, s, kind);
    assert forall|id: Seq<char>| #[trigger]
        gen_prefix(objs, s, kind).dom().contains(id) == spec_generate(s, kind).dom().contains(
        id,
    ) by {
        if gen_prefix(objs, s, kind).dom().contains(id) {
            let j = choose|j: int|
                0 <= j < objs.len() && objs[j].spec_type() == kind && objs[j].spec_id() == id;
            assert(objs[j].spec_ref() == (kind, id));
            assert(s.dom().contains((kind, id)));
        }
        if s.dom().contains((kind, id)) {
            let j = choose|j: int|
                0 <= j < objs.len() && objs[j] == s[(kind, id)];
            assert(objs[j].spec_ref() == (kind, id));
            assert(objs[j].spec_type() == kind && objs[j].spec_id() == id);
        }
    }
    assert forall|id: Seq<char>| #[trigger]
        gen_prefix(objs, s, kind).dom().contains(id) implies gen_prefix(objs, s, kind)[id]
        == spec_generate(s, kind)[id] by {
        let j = choose|j: int|
            0 <= j < objs.len() && objs[j].spec_type() == kind && objs[j].spec_id() == id;
        lemma_gen_prefix_get(objs, s, kind, j);
        assert(store@.dom().contains(objs[j].spec_ref()));
        assert(store@[objs[j].spec_ref()] == objs[j]);
        assert(objs[j].spec_ref() == (kind, id));
        assert(s[(kind, id)] == objs[j]);
    }
    assert(gen_prefix(objs, s, kind) =~= spec_generate(s, kind));
}

} // verus!
