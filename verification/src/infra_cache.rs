//! The dependency cache: a forward/reverse index between objects and the
//! track sections they reference.
//!
//! The forward maps record, for each participating object (signals and speed
//! sections), the track ids it references; the reverse map records, for each
//! track id, the references of every object that references it. The two are
//! always mutated together, and their coherence is the invariant
//! [`CacheView::wf`].

use vstd::prelude::*;
use crate::errors::InfraError;
use crate::operation::Operation;
use crate::schema::{ObjectRef, ObjectType, RailjsonObject};
use crate::strmap::StrMap;

verus! {

/// Whether a reference set has at least one element.
pub open spec fn set_nonempty(s: Set<(ObjectType, Seq<char>)>) -> bool {
    exists|r: (ObjectType, Seq<char>)| s.contains(r)
}

/// The mathematical state of a dependency cache.
pub ghost struct CacheView {
    /// Signal id to the one track id the signal stands on.
    pub signal_deps: Map<Seq<char>, Seq<char>>,
    /// Speed section id to the track ids it references, in order.
    pub speed_deps: Map<Seq<char>, Seq<Seq<char>>>,
    /// Track id to the references of all objects referencing it; an entry is
    /// present only while its set is nonempty.
    pub track_refs: Map<Seq<char>, Set<(ObjectType, Seq<char>)>>,
}

impl CacheView {
    pub open spec fn empty() -> CacheView {
        CacheView {
            signal_deps: Map::empty(),
            speed_deps: Map::empty(),
            track_refs: Map::empty(),
        }
    }

    /// The reverse index as a total function: empty where no entry exists.
    pub open spec fn refs_of(self, track: Seq<char>) -> Set<(ObjectType, Seq<char>)> {
        if self.track_refs.dom().contains(track) {
            self.track_refs[track]
        } else {
            Set::empty()
        }
    }

    /// Whether the forward maps have an entry for `r`.
    pub open spec fn forward_has(self, r: (ObjectType, Seq<char>)) -> bool {
        ||| (r.0 == ObjectType::Signal && self.signal_deps.dom().contains(r.1))
        ||| (r.0 == ObjectType::SpeedSection && self.speed_deps.dom().contains(r.1))
    }

    /// The track ids the forward entry of `r` lists (empty if none).
    pub open spec fn forward_tracks(self, r: (ObjectType, Seq<char>)) -> Seq<Seq<char>> {
        if r.0 == ObjectType::Signal && self.signal_deps.dom().contains(r.1) {
            seq![self.signal_deps[r.1]]
        } else if r.0 == ObjectType::SpeedSection && self.speed_deps.dom().contains(r.1) {
            self.speed_deps[r.1]
        } else {
            Seq::<Seq<char>>::empty()
        }
    }

    /// Whether the forward entry of `r` lists `track`.
    pub open spec fn forward_lists(self, r: (ObjectType, Seq<char>), track: Seq<char>) -> bool {
        ||| (r.0 == ObjectType::Signal && self.signal_deps.dom().contains(r.1)
            && self.signal_deps[r.1] == track)
        ||| (r.0 == ObjectType::SpeedSection && self.speed_deps.dom().contains(r.1)
            && self.speed_deps[r.1].contains(track))
    }

    /// Forward/reverse coherence: a reverse set holds exactly the references
    /// whose forward entry lists the track, and no reverse entry is empty.
    pub open spec fn wf(self) -> bool {
        &&& forall|t: Seq<char>, r: (ObjectType, Seq<char>)|
            #[trigger] self.refs_of(t).contains(r) <==> self.forward_lists(r, t)
        &&& forall|t: Seq<char>|
            #[trigger] self.track_refs.dom().contains(t) ==> set_nonempty(self.track_refs[t])
    }
}

/// Adds `r` to the reverse set of `t`, creating the entry if absent.
pub open spec fn add_ref_at(
    m: Map<Seq<char>, Set<(ObjectType, Seq<char>)>>,
    t: Seq<char>,
    r: (ObjectType, Seq<char>),
) -> Map<Seq<char>, Set<(ObjectType, Seq<char>)>> {
    let s = if m.dom().contains(t) {
        m[t]
    } else {
        Set::empty()
    };
    m.insert(t, s.insert(r))
}

/// Adds `r` to the reverse set of every track in `tracks`, in order.
pub open spec fn add_ref_tracks(
    m: Map<Seq<char>, Set<(ObjectType, Seq<char>)>>,
    tracks: Seq<Seq<char>>,
    r: (ObjectType, Seq<char>),
) -> Map<Seq<char>, Set<(ObjectType, Seq<char>)>>
    decreases tracks.len(),
{
    if tracks.len() == 0 {
        m
    } else {
        add_ref_at(add_ref_tracks(m, tracks.drop_last(), r), tracks.last(), r)
    }
}

/// Removes `r` from the reverse set of `t`, dropping the entry when it
/// becomes empty.
pub open spec fn remove_ref_at(
    m: Map<Seq<char>, Set<(ObjectType, Seq<char>)>>,
    t: Seq<char>,
    r: (ObjectType, Seq<char>),
) -> Map<Seq<char>, Set<(ObjectType, Seq<char>)>> {
    if m.dom().contains(t) {
        let s = m[t].remove(r);
        if set_nonempty(s) {
            m.insert(t, s)
        } else {
            m.remove(t)
        }
    } else {
        m
    }
}

/// Removes `r` from the reverse set of every track in `tracks`, in order.
pub open spec fn remove_ref_tracks(
    m: Map<Seq<char>, Set<(ObjectType, Seq<char>)>>,
    tracks: Seq<Seq<char>>,
    r: (ObjectType, Seq<char>),
) -> Map<Seq<char>, Set<(ObjectType, Seq<char>)>>
    decreases tracks.len(),
{
    if tracks.len() == 0 {
        m
    } else {
        remove_ref_at(remove_ref_tracks(m, tracks.drop_last(), r), tracks.last(), r)
    }
}

/// A create is admissible when the object's kind participates in the cache
/// only if its forward entry does not exist yet.
pub open spec fn spec_create_ok(c: CacheView, obj: RailjsonObject) -> bool {
    obj.spec_participating() ==> !c.forward_has(obj.spec_ref())
}

/// The cache after a create: the forward entry is inserted and the object's
/// reference is added to the reverse set of every referenced track.
pub open spec fn spec_create(c: CacheView, obj: RailjsonObject) -> CacheView {
    match obj {
        RailjsonObject::Signal { railjson } => CacheView {
            signal_deps: c.signal_deps.insert(railjson.id@, railjson.track@),
            speed_deps: c.speed_deps,
            track_refs: add_ref_tracks(c.track_refs, obj.spec_cache_tracks(), obj.spec_ref()),
        },
        RailjsonObject::SpeedSection { railjson } => CacheView {
            signal_deps: c.signal_deps,
            speed_deps: c.speed_deps.insert(railjson.id@, railjson.spec_track_refs()),
            track_refs: add_ref_tracks(c.track_refs, obj.spec_cache_tracks(), obj.spec_ref()),
        },
        _ => c,
    }
}

/// A delete is admissible when the kind participates in the cache only if
/// the forward entry exists.
pub open spec fn spec_delete_ok(c: CacheView, r: (ObjectType, Seq<char>)) -> bool {
    (r.0 == ObjectType::Signal || r.0 == ObjectType::SpeedSection) ==> c.forward_has(r)
}

/// The cache after a delete: the forward entry is removed and the reference
/// is removed from the reverse set of every track it used to reference.
pub open spec fn spec_delete(c: CacheView, r: (ObjectType, Seq<char>)) -> CacheView {
    if r.0 == ObjectType::Signal && c.signal_deps.dom().contains(r.1) {
        CacheView {
            signal_deps: c.signal_deps.remove(r.1),
            speed_deps: c.speed_deps,
            track_refs: remove_ref_tracks(c.track_refs, seq![c.signal_deps[r.1]], r),
        }
    } else if r.0 == ObjectType::SpeedSection && c.speed_deps.dom().contains(r.1) {
        CacheView {
            signal_deps: c.signal_deps,
            speed_deps: c.speed_deps.remove(r.1),
            track_refs: remove_ref_tracks(c.track_refs, c.speed_deps[r.1], r),
        }
    } else {
        c
    }
}

/// An update is semantically a delete of the object's reference followed by
/// a create of the new payload, against the current forward entry.
pub open spec fn spec_update(c: CacheView, obj: RailjsonObject) -> CacheView {
    spec_create(spec_delete(c, obj.spec_ref()), obj)
}

pub open spec fn spec_update_ok(c: CacheView, obj: RailjsonObject) -> bool {
    spec_delete_ok(c, obj.spec_ref())
}

/// Whether an operation is admissible against the cache.
pub open spec fn spec_apply_ok(c: CacheView, op: Operation) -> bool {
    match op {
        Operation::Create(obj) => spec_create_ok(c, obj),
        Operation::Update(u) => spec_update_ok(c, u.railjson),
        Operation::Delete(r) => spec_delete_ok(c, r@),
    }
}

/// The cache after an admissible operation.
pub open spec fn spec_apply(c: CacheView, op: Operation) -> CacheView {
    match op {
        Operation::Create(obj) => spec_create(c, obj),
        Operation::Update(u) => spec_update(c, u.railjson),
        Operation::Delete(r) => spec_delete(c, r@),
    }
}

proof fn lemma_contains_drop_last<T>(s: Seq<T>)
    requires
        s.len() > 0,
    ensures
        forall|x: T| #[trigger] s.contains(x) <==> s.drop_last().contains(x) || x == s.last(),
{
    assert forall|x: T| #[trigger]
        s.contains(x) implies s.drop_last().contains(x) || x == s.last() by {
        let i = choose|i: int| 0 <= i < s.len() && s[i] == x;
        if i < s.len() - 1 {
            assert(s.drop_last()[i] == x);
        }
    }
    assert forall|x: T| s.drop_last().contains(x) || x == s.last() implies #[trigger]
        s.contains(x) by {
        if s.drop_last().contains(x) {
            let i = choose|i: int| 0 <= i < s.drop_last().len() && s.drop_last()[i] == x;
            assert(s[i] == x);
        } else {
            assert(s[s.len() - 1] == x);
        }
    }
}

/// How `add_ref_tracks` acts pointwise on the reverse map.
proof fn lemma_add_ref_tracks(
    m: Map<Seq<char>, Set<(ObjectType, Seq<char>)>>,
    tracks: Seq<Seq<char>>,
    r: (ObjectType, Seq<char>),
)
    ensures
        forall|t: Seq<char>|
            #[trigger] add_ref_tracks(m, tracks, r).dom().contains(t) <==> (m.dom().contains(t)
                || tracks.contains(t)),
        forall|t: Seq<char>|
            tracks.contains(t) ==> #[trigger] add_ref_tracks(m, tracks, r)[t] == (if m.dom()
                .contains(t) {
                m[t]
            } else {
                Set::<(ObjectType, Seq<char>)>::empty()
            }).insert(r),
        forall|t: Seq<char>|
            !tracks.contains(t) && m.dom().contains(t) ==> #[trigger] add_ref_tracks(
                m,
                tracks,
                r,
            )[t] == m[t],
    decreases tracks.len(),
{
    if tracks.len() > 0 {
        lemma_add_ref_tracks(m, tracks.drop_last(), r);
        lemma_contains_drop_last(tracks);
        let m1 = add_ref_tracks(m, tracks.drop_last(), r);
        let last = tracks.last();
        assert(add_ref_tracks(m, tracks, r) == add_ref_at(m1, last, r));
        assert forall|t: Seq<char>|
            tracks.contains(t) implies #[trigger] add_ref_tracks(m, tracks, r)[t] == (if m.dom()
            .contains(t) {
            m[t]
        } else {
            Set::<(ObjectType, Seq<char>)>::empty()
        }).insert(r) by {
            let base = if m.dom().contains(t) {
                m[t]
            } else {
                Set::<(ObjectType, Seq<char>)>::empty()
            };
            if t == last {
                if tracks.drop_last().contains(t) {
                    assert(m1[t] == base.insert(r));
                    assert(base.insert(r).insert(r) =~= base.insert(r));
                } else {
                    if m.dom().contains(t) {
                        assert(m1[t] == m[t]);
                    }
                }
            } else {
                assert(tracks.drop_last().contains(t));
                assert(m1[t] == base.insert(r));
            }
        }
    }
}

/// How `remove_ref_tracks` acts pointwise on the reverse map.
proof fn lemma_remove_ref_tracks(
    m: Map<Seq<char>, Set<(ObjectType, Seq<char>)>>,
    tracks: Seq<Seq<char>>,
    r: (ObjectType, Seq<char>),
)
    ensures
        forall|t: Seq<char>|
            !tracks.contains(t) ==> ((#[trigger] remove_ref_tracks(m, tracks, r).dom().contains(t)
                <==> m.dom().contains(t)) && (m.dom().contains(t) ==> remove_ref_tracks(
                m,
                tracks,
                r,
            )[t] == m[t])),
        forall|t: Seq<char>|
            tracks.contains(t) && m.dom().contains(t) && set_nonempty(m[t].remove(r)) ==> (
            #[trigger] remove_ref_tracks(m, tracks, r).dom().contains(t) && remove_ref_tracks(
                m,
                tracks,
                r,
            )[t] == m[t].remove(r)),
        forall|t: Seq<char>|
            tracks.contains(t) && m.dom().contains(t) && !set_nonempty(m[t].remove(r))
                ==> !(#[trigger] remove_ref_tracks(m, tracks, r).dom().contains(t)),
        forall|t: Seq<char>|
            tracks.contains(t) && !m.dom().contains(t) ==> !(#[trigger] remove_ref_tracks(
                m,
                tracks,
                r,
            ).dom().contains(t)),
    decreases tracks.len(),
{
    if tracks.len() > 0 {
        lemma_remove_ref_tracks(m, tracks.drop_last(), r);
        lemma_contains_drop_last(tracks);
        let m1 = remove_ref_tracks(m, tracks.drop_last(), r);
        let last = tracks.last();
        assert(remove_ref_tracks(m, tracks, r) == remove_ref_at(m1, last, r));
        assert forall|t: Seq<char>|
            tracks.contains(t) && m.dom().contains(t) && set_nonempty(m[t].remove(r)) implies (
        #[trigger] remove_ref_tracks(m, tracks, r).dom().contains(t) && remove_ref_tracks(
            m,
            tracks,
            r,
        )[t] == m[t].remove(r)) by {
            let s = m[t].remove(r);
            if t == last {
                if tracks.drop_last().contains(t) {
                    assert(m1.dom().contains(t));
                    assert(m1[t] == s);
                    assert(s.remove(r) =~= s);
                } else {
                    assert(m1.dom().contains(t));
                    assert(m1[t] == m[t]);
                }
            } else {
                assert(tracks.drop_last().contains(t));
                assert(m1.dom().contains(t));
                assert(m1[t] == s);
            }
        }
        assert forall|t: Seq<char>|
            tracks.contains(t) && m.dom().contains(t) && !set_nonempty(
                m[t].remove(r),
            ) implies !(#[trigger] remove_ref_tracks(m, tracks, r).dom().contains(t)) by {
            let s = m[t].remove(r);
            if t == last {
                if tracks.drop_last().contains(t) {
                    assert(!m1.dom().contains(t));
                } else {
                    assert(m1[t] == m[t]);
                    assert(!set_nonempty(m[t].remove(r)));
                }
            } else {
                assert(tracks.drop_last().contains(t));
                assert(!m1.dom().contains(t));
            }
        }
    }
}

/// Creating an object and deleting it again restores the cache exactly.
pub proof fn lemma_create_delete_round_trip(c: CacheView, obj: RailjsonObject)
    requires
        c.wf(),
        spec_create_ok(c, obj),
    ensures
        spec_delete(spec_create(c, obj), obj.spec_ref()) == c,
{
    let r = obj.spec_ref();
    let tracks = obj.spec_cache_tracks();
    if !obj.spec_participating() {
        assert(spec_create(c, obj) == c);
        assert(spec_delete(c, r) == c);
    } else {
        let c1 = spec_create(c, obj);
        lemma_add_ref_tracks(c.track_refs, tracks, r);
        // The forward entry of the created object lists exactly `tracks`.
        match obj {
            RailjsonObject::Signal { railjson } => {
                assert(c1.signal_deps[r.1] == railjson.track@);
                assert(seq![c1.signal_deps[r.1]] =~= tracks);
                assert(c1.signal_deps.remove(r.1) =~= c.signal_deps);
            },
            RailjsonObject::SpeedSection { railjson } => {
                assert(c1.speed_deps[r.1] == railjson.spec_track_refs());
                assert(c1.speed_deps.remove(r.1) =~= c.speed_deps);
            },
            _ => {},
        }
        let c2 = spec_delete(c1, r);
        lemma_remove_ref_tracks(c1.track_refs, tracks, r);
        // No reverse set of `c` holds `r`: its forward entry did not exist.
        assert forall|t: Seq<char>|
            #[trigger] c.track_refs.dom().contains(t) implies !c.track_refs[t].contains(r) by {
            if c.track_refs[t].contains(r) {
                assert(c.refs_of(t).contains(r));
                assert(c.forward_lists(r, t));
            }
        }
        assert forall|t: Seq<char>| #[trigger]
            c2.track_refs.dom().contains(t) == c.track_refs.dom().contains(t) && (c.track_refs.dom()
            .contains(t) ==> c2.track_refs[t] == c.track_refs[t]) by {
            if tracks.contains(t) {
                assert(c1.track_refs.dom().contains(t));
                if c.track_refs.dom().contains(t) {
                    assert(c1.track_refs[t] == c.track_refs[t].insert(r));
                    assert(c.track_refs[t].insert(r).remove(r) =~= c.track_refs[t]);
                    assert(set_nonempty(c.track_refs[t]));
                    assert(set_nonempty(c1.track_refs[t].remove(r)));
                    assert(c2.track_refs.dom().contains(t));
                    assert(c2.track_refs[t] == c1.track_refs[t].remove(r));
                } else {
                    assert(c1.track_refs[t] == Set::<(ObjectType, Seq<char>)>::empty().insert(r));
                    assert(c1.track_refs[t].remove(r) =~= Set::<(ObjectType, Seq<char>)>::empty());
                    assert(!set_nonempty(c1.track_refs[t].remove(r)));
                    assert(!c2.track_refs.dom().contains(t));
                }
            } else {
                if c.track_refs.dom().contains(t) {
                    assert(c1.track_refs.dom().contains(t));
                    assert(c1.track_refs[t] == c.track_refs[t]);
                    assert(c2.track_refs.dom().contains(t));
                    assert(c2.track_refs[t] == c1.track_refs[t]);
                } else {
                    assert(!c1.track_refs.dom().contains(t));
                    assert(!c2.track_refs.dom().contains(t));
                }
            }
        }
        assert(c2.track_refs =~= c.track_refs);
        assert(c2.signal_deps =~= c.signal_deps);
        assert(c2.speed_deps =~= c.speed_deps);
        assert(c2 == c);
    }
}

/// An update is, by construction, exactly a delete of the object's reference
/// followed by a create of the new payload.
pub proof fn lemma_update_is_delete_then_create(c: CacheView, obj: RailjsonObject)
    ensures
        spec_update(c, obj) == spec_create(spec_delete(c, obj.spec_ref()), obj),
{
}

/// Forward/reverse consistency: a track's reverse set holds a reference
/// exactly when that object's forward entry lists the track.
pub proof fn lemma_forward_reverse_consistent(
    c: CacheView,
    t: Seq<char>,
    r: (ObjectType, Seq<char>),
)
    requires
        c.wf(),
    ensures
        c.refs_of(t).contains(r) <==> c.forward_lists(r, t),
{
}

/// A create preserves the cache invariant.
pub proof fn lemma_create_preserves_wf(c: CacheView, obj: RailjsonObject)
    requires
        c.wf(),
        spec_create_ok(c, obj),
    ensures
        spec_create(c, obj).wf(),
{
    if obj.spec_participating() {
        let c1 = spec_create(c, obj);
        let r = obj.spec_ref();
        let tracks = obj.spec_cache_tracks();
        lemma_add_ref_tracks(c.track_refs, tracks, r);
        match obj {
            RailjsonObject::Signal { railjson } => {
                assert(tracks =~= seq![railjson.track@]);
            },
            _ => {},
        }
        assert forall|t: Seq<char>, x: (ObjectType, Seq<char>)| #[trigger]
            c1.refs_of(t).contains(x) implies c1.forward_lists(x, t) by {
            if tracks.contains(t) {
                if x == r {
                    match obj {
                        RailjsonObject::Signal { railjson } => {
                            assert(tracks[0] == railjson.track@);
                            assert(t == railjson.track@);
                        },
                        RailjsonObject::SpeedSection { .. } => {},
                        _ => {},
                    }
                } else {
                    assert(c.refs_of(t).contains(x));
                    assert(c.forward_lists(x, t));
                }
            } else {
                assert(c.refs_of(t).contains(x));
                assert(c.forward_lists(x, t));
                assert(x != r);
            }
        }
        assert forall|t: Seq<char>, x: (ObjectType, Seq<char>)|
            c1.forward_lists(x, t) implies #[trigger] c1.refs_of(t).contains(x) by {
            if x == r {
                match obj {
                    RailjsonObject::Signal { railjson } => {
                        assert(t == railjson.track@);
                        assert(tracks.contains(t));
                    },
                    RailjsonObject::SpeedSection { railjson } => {
                        assert(railjson.spec_track_refs().contains(t));
                        assert(tracks.contains(t));
                    },
                    _ => {},
                }
            } else {
                assert(c.forward_lists(x, t));
                assert(c.refs_of(t).contains(x));
                if tracks.contains(t) {
                    assert(c1.track_refs[t].contains(x));
                } else {
                    assert(c1.track_refs[t] == c.track_refs[t]);
                }
            }
        }
        assert forall|t: Seq<char>| #[trigger]
            c1.track_refs.dom().contains(t) implies set_nonempty(c1.track_refs[t]) by {
            if tracks.contains(t) {
                assert(c1.track_refs[t].contains(r));
            } else {
                assert(c1.track_refs[t] == c.track_refs[t]);
            }
        }
    }
}

/// A delete preserves the cache invariant.
pub proof fn lemma_delete_preserves_wf(c: CacheView, r: (ObjectType, Seq<char>))
    requires
        c.wf(),
    ensures
        spec_delete(c, r).wf(),
{
    let c1 = spec_delete(c, r);
    if c1 != c {
        let tracks = c.forward_tracks(r);
        lemma_remove_ref_tracks(c.track_refs, tracks, r);
        assert forall|t: Seq<char>, x: (ObjectType, Seq<char>)| #[trigger]
            c1.refs_of(t).contains(x) implies c1.forward_lists(x, t) by {
            assert(c.refs_of(t).contains(x));
            assert(c.forward_lists(x, t));
            assert(x != r);
        }
        assert forall|t: Seq<char>, x: (ObjectType, Seq<char>)|
            c1.forward_lists(x, t) implies #[trigger] c1.refs_of(t).contains(x) by {
            assert(x != r);
            assert(c.forward_lists(x, t));
            assert(c.refs_of(t).contains(x));
            if tracks.contains(t) {
                if c.track_refs.dom().contains(t) {
                    assert(c.track_refs[t].remove(r).contains(x));
                    assert(set_nonempty(c.track_refs[t].remove(r)));
                }
            }
        }
        assert forall|t: Seq<char>| #[trigger]
            c1.track_refs.dom().contains(t) implies set_nonempty(c1.track_refs[t]) by {
            if tracks.contains(t) {
                assert(c1.track_refs[t] == c.track_refs[t].remove(r));
            } else {
                assert(c1.track_refs[t] == c.track_refs[t]);
            }
        }
    }
}

/// An admissible operation preserves the cache invariant.
pub proof fn lemma_apply_preserves_wf(c: CacheView, op: Operation)
    requires
        c.wf(),
        spec_apply_ok(c, op),
    ensures
        spec_apply(c, op).wf(),
{
    match op {
        Operation::Create(obj) => lemma_create_preserves_wf(c, obj),
        Operation::Delete(r) => lemma_delete_preserves_wf(c, r@),
        Operation::Update(u) => {
            let obj = u.railjson;
            let c1 = spec_delete(c, obj.spec_ref());
            lemma_delete_preserves_wf(c, obj.spec_ref());
            assert(spec_create_ok(c1, obj));
            lemma_create_preserves_wf(c1, obj);
        },
    }
}

/// Whether a whole batch is admissible against the cache, in order.
pub open spec fn spec_apply_ops_ok(c: CacheView, ops: Seq<Operation>) -> bool
    decreases ops.len(),
{
    if ops.len() == 0 {
        true
    } else {
        spec_apply_ops_ok(c, ops.drop_last()) && spec_apply_ok(
            spec_apply_ops(c, ops.drop_last()),
            ops.last(),
        )
    }
}

/// The cache after a whole batch, in order.
pub open spec fn spec_apply_ops(c: CacheView, ops: Seq<Operation>) -> CacheView
    decreases ops.len(),
{
    if ops.len() == 0 {
        c
    } else {
        spec_apply(spec_apply_ops(c, ops.drop_last()), ops.last())
    }
}

/// An admissible batch preserves the cache invariant.
pub proof fn lemma_apply_ops_preserves_wf(c: CacheView, ops: Seq<Operation>)
    requires
        c.wf(),
        spec_apply_ops_ok(c, ops),
    ensures
        spec_apply_ops(c, ops).wf(),
    decreases ops.len(),
{
    if ops.len() > 0 {
        lemma_apply_ops_preserves_wf(c, ops.drop_last());
        lemma_apply_preserves_wf(spec_apply_ops(c, ops.drop_last()), ops.last());
    }
}

/// One (object id, referenced track id) pair, as the canonical store's bulk
/// projection queries report them.
#[derive(Clone, Debug)]
pub struct ObjRefLink {
    pub obj_id: String,
    pub ref_id: String,
}

impl View for ObjRefLink {
    type V = (Seq<char>, Seq<char>);

    open spec fn view(&self) -> (Seq<char>, Seq<char>) {
        (self.obj_id@, self.ref_id@)
    }
}

impl DeepView for ObjRefLink {
    type V = (Seq<char>, Seq<char>);

    open spec fn deep_view(&self) -> (Seq<char>, Seq<char>) {
        self@
    }
}

/// Adds, for each link in order, the reference `(obj_type, link obj id)` to
/// the reverse set of the link's track.
pub open spec fn spec_add_links_refs(
    m: Map<Seq<char>, Set<(ObjectType, Seq<char>)>>,
    links: Seq<(Seq<char>, Seq<char>)>,
    obj_type: ObjectType,
) -> Map<Seq<char>, Set<(ObjectType, Seq<char>)>>
    decreases links.len(),
{
    if links.len() == 0 {
        m
    } else {
        add_ref_at(
            spec_add_links_refs(m, links.drop_last(), obj_type),
            links.last().1,
            (obj_type, links.last().0),
        )
    }
}

/// Records, for each link in order, the link's track under its object id,
/// overwriting earlier entries.
pub open spec fn spec_set_links(
    m: Map<Seq<char>, Seq<char>>,
    links: Seq<(Seq<char>, Seq<char>)>,
) -> Map<Seq<char>, Seq<char>>
    decreases links.len(),
{
    if links.len() == 0 {
        m
    } else {
        spec_set_links(m, links.drop_last()).insert(links.last().0, links.last().1)
    }
}

/// Appends, for each link in order, the link's track to the ordered list
/// under its object id, creating the entry if absent.
pub open spec fn spec_push_links(
    m: Map<Seq<char>, Seq<Seq<char>>>,
    links: Seq<(Seq<char>, Seq<char>)>,
) -> Map<Seq<char>, Seq<Seq<char>>>
    decreases links.len(),
{
    if links.len() == 0 {
        m
    } else {
        let p = spec_push_links(m, links.drop_last());
        let prev = if p.dom().contains(links.last().0) {
            p[links.last().0]
        } else {
            Seq::<Seq<char>>::empty()
        };
        p.insert(links.last().0, prev.push(links.last().1))
    }
}

/// The reverse set at one track, empty where no entry exists.
pub open spec fn refs_at(
    m: Map<Seq<char>, Set<(ObjectType, Seq<char>)>>,
    t: Seq<char>,
) -> Set<(ObjectType, Seq<char>)> {
    if m.dom().contains(t) {
        m[t]
    } else {
        Set::empty()
    }
}

proof fn lemma_add_links_refs(
    m: Map<Seq<char>, Set<(ObjectType, Seq<char>)>>,
    links: Seq<(Seq<char>, Seq<char>)>,
    obj_type: ObjectType,
)
    ensures
        forall|t: Seq<char>, x: (ObjectType, Seq<char>)|
            #[trigger] refs_at(spec_add_links_refs(m, links, obj_type), t).contains(x) <==> (
            refs_at(m, t).contains(x) || (x.0 == obj_type && (exists|i: int|
                0 <= i < links.len() && links[i] == (x.1, t)))),
        forall|t: Seq<char>|
            #[trigger] spec_add_links_refs(m, links, obj_type).dom().contains(t) <==> (m.dom()
                .contains(t) || (exists|i: int| 0 <= i < links.len() && (links[i]).1 == t)),
    decreases links.len(),
{
    if links.len() > 0 {
        lemma_add_links_refs(m, links.drop_last(), obj_type);
        let prev = spec_add_links_refs(m, links.drop_last(), obj_type);
        let res = spec_add_links_refs(m, links, obj_type);
        let last = links.last();
        assert(res == add_ref_at(prev, last.1, (obj_type, last.0)));
        assert forall|t: Seq<char>, x: (ObjectType, Seq<char>)| #[trigger]
            refs_at(res, t).contains(x) implies (refs_at(m, t).contains(x) || (x.0 == obj_type
            && (exists|i: int| 0 <= i < links.len() && links[i] == (x.1, t)))) by {
            if t == last.1 && x == (obj_type, last.0) {
                assert(links[links.len() - 1] == (x.1, t));
            } else {
                assert(refs_at(prev, t).contains(x));
                if !refs_at(m, t).contains(x) {
                    let i = choose|i: int|
                        0 <= i < links.drop_last().len() && links.drop_last()[i] == (x.1, t);
                    assert(links[i] == (x.1, t));
                }
            }
        }
        assert forall|t: Seq<char>, x: (ObjectType, Seq<char>)| (refs_at(m, t).contains(x) || (
        x.0 == obj_type && (exists|i: int|
            0 <= i < links.len() && links[i] == (x.1, t)))) implies #[trigger]
            refs_at(res, t).contains(x) by {
            if refs_at(m, t).contains(x) {
                assert(refs_at(prev, t).contains(x));
            } else {
                let i = choose|i: int| 0 <= i < links.len() && links[i] == (x.1, t);
                if i < links.len() - 1 {
                    assert(links.drop_last()[i] == (x.1, t));
                    assert(refs_at(prev, t).contains(x));
                } else {
                    assert(t == last.1 && x.1 == last.0);
                }
            }
        }
        assert forall|t: Seq<char>| #[trigger]
            res.dom().contains(t) implies (m.dom().contains(t) || (exists|i: int|
            0 <= i < links.len() && (links[i]).1 == t)) by {
            if t == last.1 {
                assert((links[links.len() - 1]).1 == t);
            } else {
                assert(prev.dom().contains(t));
                if !m.dom().contains(t) {
                    let i = choose|i: int|
                        0 <= i < links.drop_last().len() && (links.drop_last()[i]).1 == t;
                    assert((links[i]).1 == t);
                }
            }
        }
        assert forall|t: Seq<char>| (m.dom().contains(t) || (exists|i: int|
            0 <= i < links.len() && (links[i]).1 == t)) implies #[trigger] res.dom().contains(
            t,
        ) by {
            if m.dom().contains(t) {
                assert(prev.dom().contains(t));
            } else {
                let i = choose|i: int| 0 <= i < links.len() && (links[i]).1 == t;
                if i < links.len() - 1 {
                    assert((links.drop_last()[i]).1 == t);
                    assert(prev.dom().contains(t));
                }
            }
        }
    }
}

proof fn lemma_set_links_empty(links: Seq<(Seq<char>, Seq<char>)>)
    requires
        forall|p: int, q: int| 0 <= p < q < links.len() ==> (links[p]).0 != (links[q]).0,
    ensures
        forall|id: Seq<char>|
            #[trigger] spec_set_links(Map::<Seq<char>, Seq<char>>::empty(), links).dom().contains(
                id,
            ) <==> (exists|i: int| 0 <= i < links.len() && (links[i]).0 == id),
        forall|i: int|
            0 <= i < links.len() ==> #[trigger] spec_set_links(
                Map::<Seq<char>, Seq<char>>::empty(),
                links,
            )[(links[i]).0] == (links[i]).1,
    decreases links.len(),
{
    if links.len() > 0 {
        lemma_set_links_empty(links.drop_last());
        let prev = spec_set_links(Map::<Seq<char>, Seq<char>>::empty(), links.drop_last());
        let res = spec_set_links(Map::<Seq<char>, Seq<char>>::empty(), links);
        let last = links.last();
        assert forall|id: Seq<char>| #[trigger]
            res.dom().contains(id) implies (exists|i: int|
            0 <= i < links.len() && (links[i]).0 == id) by {
            if id == last.0 {
                assert((links[links.len() - 1]).0 == id);
            } else {
                let i = choose|i: int|
                    0 <= i < links.drop_last().len() && (links.drop_last()[i]).0 == id;
                assert((links[i]).0 == id);
            }
        }
        assert forall|id: Seq<char>| (exists|i: int|
            0 <= i < links.len() && (links[i]).0 == id) implies #[trigger] res.dom().contains(
            id,
        ) by {
            let i = choose|i: int| 0 <= i < links.len() && (links[i]).0 == id;
            if i < links.len() - 1 {
                assert((links.drop_last()[i]).0 == id);
                assert(prev.dom().contains(id));
            }
        }
        assert forall|i: int| 0 <= i < links.len() implies #[trigger]
            res[(links[i]).0] == (links[i]).1 by {
            if i == links.len() - 1 {
            } else {
                assert(links.drop_last()[i] == links[i]);
                assert(prev[(links[i]).0] == (links[i]).1);
                assert((links[i]).0 != last.0);
            }
        }
    }
}

proof fn lemma_push_links_empty(links: Seq<(Seq<char>, Seq<char>)>)
    ensures
        forall|id: Seq<char>|
            #[trigger] spec_push_links(Map::<Seq<char>, Seq<Seq<char>>>::empty(), links).dom()
                .contains(id) <==> (exists|i: int| 0 <= i < links.len() && (links[i]).0 == id),
        forall|id: Seq<char>, t: Seq<char>|
            spec_push_links(Map::<Seq<char>, Seq<Seq<char>>>::empty(), links).dom().contains(id)
                ==> (#[trigger] spec_push_links(
                Map::<Seq<char>, Seq<Seq<char>>>::empty(),
                links,
            )[id].contains(t) <==> (exists|i: int| 0 <= i < links.len() && links[i] == (id, t))),
    decreases links.len(),
{
    if links.len() > 0 {
        lemma_push_links_empty(links.drop_last());
        let prev = spec_push_links(Map::<Seq<char>, Seq<Seq<char>>>::empty(), links.drop_last());
        let res = spec_push_links(Map::<Seq<char>, Seq<Seq<char>>>::empty(), links);
        let last = links.last();
        assert forall|id: Seq<char>| #[trigger]
            res.dom().contains(id) implies (exists|i: int|
            0 <= i < links.len() && (links[i]).0 == id) by {
            if id == last.0 {
                assert((links[links.len() - 1]).0 == id);
            } else {
                let i = choose|i: int|
                    0 <= i < links.drop_last().len() && (links.drop_last()[i]).0 == id;
                assert((links[i]).0 == id);
            }
        }
        assert forall|id: Seq<char>| (exists|i: int|
            0 <= i < links.len() && (links[i]).0 == id) implies #[trigger] res.dom().contains(
            id,
        ) by {
            let i = choose|i: int| 0 <= i < links.len() && (links[i]).0 == id;
            if i < links.len() - 1 {
                assert((links.drop_last()[i]).0 == id);
                assert(prev.dom().contains(id));
            }
        }
        assert forall|id: Seq<char>, t: Seq<char>| res.dom().contains(id) implies (#[trigger]
        res[id].contains(t) <==> (exists|i: int|
            0 <= i < links.len() && links[i] == (id, t))) by {
            let prev_seq = if prev.dom().contains(last.0) {
                prev[last.0]
            } else {
                Seq::<Seq<char>>::empty()
            };
            if id == last.0 {
                assert(res[id] == prev_seq.push(last.1));
                if res[id].contains(t) {
                    let j = choose|j: int| 0 <= j < res[id].len() && res[id][j] == t;
                    if j < prev_seq.len() {
                        assert(prev_seq.contains(t));
                        assert(prev.dom().contains(id));
                        let i = choose|i: int|
                            0 <= i < links.drop_last().len() && links.drop_last()[i] == (id, t);
                        assert(links[i] == (id, t));
                    } else {
                        assert(t == last.1);
                        assert(links[links.len() - 1] == (id, t));
                    }
                }
                if exists|i: int| 0 <= i < links.len() && links[i] == (id, t) {
                    let i = choose|i: int| 0 <= i < links.len() && links[i] == (id, t);
                    if i < links.len() - 1 {
                        assert(links.drop_last()[i] == (id, t));
                        assert(prev.dom().contains(id));
                        assert(prev[id].contains(t));
                        let j = choose|j: int| 0 <= j < prev[id].len() && prev[id][j] == t;
                        assert(res[id][j] == t);
                    } else {
                        assert(res[id][res[id].len() - 1] == t);
                    }
                }
            } else {
                assert(res[id] == prev[id]);
                assert(prev.dom().contains(id));
                if res[id].contains(t) {
                    let i = choose|i: int|
                        0 <= i < links.drop_last().len() && links.drop_last()[i] == (id, t);
                    assert(links[i] == (id, t));
                }
                if exists|i: int| 0 <= i < links.len() && links[i] == (id, t) {
                    let i = choose|i: int| 0 <= i < links.len() && links[i] == (id, t);
                    assert(i < links.len() - 1);
                    assert(links.drop_last()[i] == (id, t));
                    assert(prev[id].contains(t));
                }
            }
        }
    }
}

/// A cache built from per-kind link lists is coherent, provided each signal
/// id occurs at most once.
proof fn lemma_init_wf(
    c: CacheView,
    sigs: Seq<(Seq<char>, Seq<char>)>,
    speeds: Seq<(Seq<char>, Seq<char>)>,
)
    requires
        forall|p: int, q: int| 0 <= p < q < sigs.len() ==> (sigs[p]).0 != (sigs[q]).0,
        c.signal_deps == spec_set_links(Map::<Seq<char>, Seq<char>>::empty(), sigs),
        c.speed_deps == spec_push_links(Map::<Seq<char>, Seq<Seq<char>>>::empty(), speeds),
        c.track_refs == spec_add_links_refs(
            spec_add_links_refs(
                Map::<Seq<char>, Set<(ObjectType, Seq<char>)>>::empty(),
                sigs,
                ObjectType::Signal,
            ),
            speeds,
            ObjectType::SpeedSection,
        ),
    ensures
        c.wf(),
{
    let m1 = spec_add_links_refs(
        Map::<Seq<char>, Set<(ObjectType, Seq<char>)>>::empty(),
        sigs,
        ObjectType::Signal,
    );
    lemma_add_links_refs(
        Map::<Seq<char>, Set<(ObjectType, Seq<char>)>>::empty(),
        sigs,
        ObjectType::Signal,
    );
    lemma_add_links_refs(m1, speeds, ObjectType::SpeedSection);
    lemma_set_links_empty(sigs);
    lemma_push_links_empty(speeds);
    assert forall|t: Seq<char>, r: (ObjectType, Seq<char>)| #[trigger]
        c.refs_of(t).contains(r) <==> c.forward_lists(r, t) by {
        assert(c.refs_of(t) == refs_at(c.track_refs, t));
        if c.refs_of(t).contains(r) {
            if refs_at(m1, t).contains(r) {
                assert(r.0 == ObjectType::Signal);
                let i = choose|i: int| 0 <= i < sigs.len() && sigs[i] == (r.1, t);
                assert((sigs[i]).0 == r.1);
                assert(c.signal_deps.dom().contains(r.1));
                assert(c.signal_deps[(sigs[i]).0] == (sigs[i]).1);
                assert(c.forward_lists(r, t));
            } else {
                assert(r.0 == ObjectType::SpeedSection);
                let i = choose|i: int| 0 <= i < speeds.len() && speeds[i] == (r.1, t);
                assert((speeds[i]).0 == r.1);
                assert(c.speed_deps.dom().contains(r.1));
                assert(c.speed_deps[r.1].contains(t));
                assert(c.forward_lists(r, t));
            }
        }
        if c.forward_lists(r, t) {
            if r.0 == ObjectType::Signal {
                let i = choose|i: int| 0 <= i < sigs.len() && (sigs[i]).0 == r.1;
                assert(c.signal_deps[(sigs[i]).0] == (sigs[i]).1);
                assert((sigs[i]).1 == t);
                assert(sigs[i] == (r.1, t));
                assert(refs_at(m1, t).contains(r));
                assert(c.refs_of(t).contains(r));
            } else {
                assert(r.0 == ObjectType::SpeedSection);
                assert(c.speed_deps[r.1].contains(t));
                let i = choose|i: int| 0 <= i < speeds.len() && speeds[i] == (r.1, t);
                assert(c.refs_of(t).contains(r));
            }
        }
    }
    assert forall|t: Seq<char>| #[trigger]
        c.track_refs.dom().contains(t) implies set_nonempty(c.track_refs[t]) by {
        if m1.dom().contains(t) {
            let i = choose|i: int| 0 <= i < sigs.len() && (sigs[i]).1 == t;
            assert(refs_at(m1, t).contains((ObjectType::Signal, (sigs[i]).0)));
            assert(refs_at(c.track_refs, t).contains((ObjectType::Signal, (sigs[i]).0)));
            assert(c.track_refs[t].contains((ObjectType::Signal, (sigs[i]).0)));
        } else {
            let i = choose|i: int| 0 <= i < speeds.len() && (speeds[i]).1 == t;
            assert(refs_at(c.track_refs, t).contains((ObjectType::SpeedSection, (speeds[i]).0)));
            assert(c.track_refs[t].contains((ObjectType::SpeedSection, (speeds[i]).0)));
        }
    }
}

proof fn lemma_push_to_set<T>(s: Seq<T>, x: T)
    ensures
        s.push(x).to_set() == s.to_set().insert(x),
{
    lemma_contains_drop_last(s.push(x));
    assert(s.push(x).drop_last() =~= s);
    assert(s.push(x).to_set() =~= s.to_set().insert(x));
}

proof fn lemma_remove_to_set<T>(s: Seq<T>, i: int)
    requires
        0 <= i < s.len(),
        forall|p: int, q: int| 0 <= p < q < s.len() ==> s[p] != s[q],
    ensures
        s.remove(i).to_set() == s.to_set().remove(s[i]),
{
    assert forall|y: T| #[trigger]
        s.remove(i).to_set().contains(y) implies s.to_set().contains(y) && y != s[i] by {
        let j = choose|j: int| 0 <= j < s.remove(i).len() && s.remove(i)[j] == y;
        if j < i {
            assert(s[j] == y);
        } else {
            assert(s[j + 1] == y);
        }
    }
    assert forall|y: T| s.to_set().contains(y) && y != s[i] implies #[trigger]
        s.remove(i).to_set().contains(y) by {
        let j = choose|j: int| 0 <= j < s.len() && s[j] == y;
        if j < i {
            assert(s.remove(i)[j] == y);
        } else {
            assert(j != i);
            assert(s.remove(i)[j - 1] == y);
        }
    }
    assert(s.remove(i).to_set() =~= s.to_set().remove(s[i]));
}

/// Whether the vector holds a reference equal to `r`.
fn contains_ref(v: &Vec<ObjectRef>, r: &ObjectRef) -> (b: bool)
    ensures
        b == v.deep_view().contains(r@),
{
    let mut i: usize = 0;
    while i < v.len()
        invariant
            i <= v@.len(),
            forall|j: int| 0 <= j < i ==> v.deep_view()[j] != r@,
        decreases v@.len() - i,
    {
        if v[i] == *r {
            proof {
                assert(v.deep_view()[i as int] == r@);
            }
            return true;
        }
        i += 1;
    }
    proof {
        if v.deep_view().contains(r@) {
            let j = choose|j: int| 0 <= j < v.deep_view().len() && v.deep_view()[j] == r@;
            assert(v.deep_view()[j] != r@);
        }
    }
    false
}

/// The index of the reference equal to `r`, if any.
fn find_ref(v: &Vec<ObjectRef>, r: &ObjectRef) -> (idx: Option<usize>)
    ensures
        match idx {
            Some(i) => i < v@.len() && v.deep_view()[i as int] == r@,
            None => !v.deep_view().contains(r@),
        },
{
    let mut i: usize = 0;
    while i < v.len()
        invariant
            i <= v@.len(),
            forall|j: int| 0 <= j < i ==> v.deep_view()[j] != r@,
        decreases v@.len() - i,
    {
        if v[i] == *r {
            return Some(i);
        }
        i += 1;
    }
    proof {
        if v.deep_view().contains(r@) {
            let j = choose|j: int| 0 <= j < v.deep_view().len() && v.deep_view()[j] == r@;
            assert(v.deep_view()[j] != r@);
        }
    }
    None
}

/// The in-memory dependency cache of one infrastructure.
pub struct InfraCache {
    /// Speed section id to the track ids it references.
    speed_section_dependencies: StrMap<Vec<String>>,
    /// Signal id to the track id it stands on.
    signal_dependencies: StrMap<String>,
    /// Track id to the references of the objects depending on it.
    track_sections_refs: StrMap<Vec<ObjectRef>>,
}

impl View for InfraCache {
    type V = CacheView;

    closed spec fn view(&self) -> CacheView {
        CacheView {
            signal_deps: self.signal_dependencies@,
            speed_deps: self.speed_section_dependencies@,
            track_refs: Map::new(
                |t: Seq<char>| self.track_sections_refs@.dom().contains(t),
                |t: Seq<char>| self.track_sections_refs@[t].to_set(),
            ),
        }
    }
}

impl Default for InfraCache {
    fn default() -> (r: Self)
        ensures
            r.inv(),
            r@ == CacheView::empty(),
    {
        let r = InfraCache {
            speed_section_dependencies: StrMap::new(),
            signal_dependencies: StrMap::new(),
            track_sections_refs: StrMap::new(),
        };
        proof {
            assert(r@.track_refs =~= Map::<Seq<char>, Set<(ObjectType, Seq<char>)>>::empty());
        }
        r
    }
}

impl InfraCache {
    /// Structural invariant: unique keys everywhere, and every reverse entry
    /// is a nonempty, duplicate-free vector.
    pub closed spec fn inv(self) -> bool {
        &&& self.signal_dependencies.wf()
        &&& self.speed_section_dependencies.wf()
        &&& self.track_sections_refs.wf()
        &&& forall|t: Seq<char>|
            #[trigger] self.track_sections_refs@.dom().contains(t) ==> {
                let s = self.track_sections_refs@[t];
                s.len() > 0 && (forall|p: int, q: int| 0 <= p < q < s.len() ==> s[p] != s[q])
            }
    }

    /// An empty cache.
    pub fn new() -> (r: Self)
        ensures
            r.inv(),
            r@ == CacheView::empty(),
    {
        Self::default()
    }

    /// Adds `r` to the reverse set of `track`.
    fn add_track_ref(&mut self, track: &String, r: ObjectRef)
        requires
            old(self).inv(),
        ensures
            final(self).inv(),
            final(self)@.signal_deps == old(self)@.signal_deps,
            final(self)@.speed_deps == old(self)@.speed_deps,
            final(self)@.track_refs == add_ref_at(old(self)@.track_refs, track@, r@),
    {
        let ghost m0 = self@.track_refs;
        let ghost rv0 = self.track_sections_refs@;
        match self.track_sections_refs.remove(track) {
            Some(mut v) => {
                let ghost vseq = v.deep_view();
                proof {
                    assert(rv0.dom().contains(track@));
                    assert(vseq == rv0[track@]);
                }
                if !contains_ref(&v, &r) {
                    v.push(r);
                    proof {
                        assert(v.deep_view() =~= vseq.push(r@));
                        lemma_push_to_set(vseq, r@);
                        assert forall|p: int, q: int|
                            0 <= p < q < v.deep_view().len() implies v.deep_view()[p]
                            != v.deep_view()[q] by {
                            if q == v.deep_view().len() - 1 {
                                assert(v.deep_view()[p] == vseq[p]);
                                assert(!vseq.contains(r@));
                            }
                        }
                    }
                } else {
                    proof {
                        assert(vseq.to_set().insert(r@) =~= vseq.to_set());
                    }
                }
                self.track_sections_refs.insert_new(track.clone(), v);
            },
            None => {
                let mut v: Vec<ObjectRef> = Vec::new();
                v.push(r);
                proof {
                    assert(v.deep_view() =~= seq![r@]);
                    assert(v.deep_view()[0] == r@);
                    assert(v.deep_view().contains(r@));
                    assert forall|y: (ObjectType, Seq<char>)| #[trigger]
                        v.deep_view().to_set().contains(y) implies y == r@ by {
                        let j = choose|j: int|
                            0 <= j < v.deep_view().len() && v.deep_view()[j] == y;
                        assert(v.deep_view()[0] == r@);
                    }
                    assert(v.deep_view().to_set() =~= Set::<(ObjectType, Seq<char>)>::empty()
                        .insert(r@));
                }
                self.track_sections_refs.insert_new(track.clone(), v);
            },
        }
        proof {
            assert(self@.track_refs =~= add_ref_at(m0, track@, r@));
            assert forall|t: Seq<char>| #[trigger]
                self.track_sections_refs@.dom().contains(t) implies {
                let s = self.track_sections_refs@[t];
                s.len() > 0 && (forall|p: int, q: int| 0 <= p < q < s.len() ==> s[p] != s[q])
            } by {
                if t != track@ {
                    assert(self.track_sections_refs@[t] == rv0[t]);
                    assert(rv0.dom().contains(t));
                }
            }
        }
    }

    /// Applies a create operation: inserts the forward entry and adds the
    /// object's reference to the reverse set of every referenced track.
    /// Fails with `InvariantViolation`, leaving the cache unchanged, when the
    /// forward entry already exists.
    pub fn apply_create(&mut self, railjson_obj: &RailjsonObject) -> (r: Result<(), InfraError>)
        requires
            old(self).inv(),
        ensures
            final(self).inv(),
            match r {
                Ok(()) => spec_create_ok(old(self)@, *railjson_obj) && final(self)@ == spec_create(
                    old(self)@,
                    *railjson_obj,
                ),
                Err(e) => e is InvariantViolation && !spec_create_ok(old(self)@, *railjson_obj)
                    && final(self)@ == old(self)@,
            },
            old(self)@.wf() ==> final(self)@.wf(),
    {
        let ghost c0 = self@;
        match railjson_obj {
            RailjsonObject::Signal { railjson } => {
                if self.signal_dependencies.contains_key(&railjson.id) {
                    return Err(InfraError::InvariantViolation);
                }
                self.signal_dependencies.insert_new(railjson.id.clone(), railjson.track.clone());
                self.add_track_ref(
                    &railjson.track,
                    ObjectRef::new(ObjectType::Signal, railjson.id.clone()),
                );
                proof {
                    let tracks = railjson_obj.spec_cache_tracks();
                    let rr = railjson_obj.spec_ref();
                    assert(tracks =~= seq![railjson.track@]);
                    assert(tracks.drop_last() =~= Seq::<Seq<char>>::empty());
                    assert(tracks.last() == railjson.track@);
                    assert(add_ref_tracks(c0.track_refs, tracks.drop_last(), rr)
                        == c0.track_refs);
                    assert(add_ref_tracks(c0.track_refs, tracks, rr) == add_ref_at(
                        c0.track_refs,
                        railjson.track@,
                        rr,
                    ));
                    assert(self@ == spec_create(c0, *railjson_obj));
                    if c0.wf() {
                        lemma_create_preserves_wf(c0, *railjson_obj);
                    }
                }
                Ok(())
            },
            RailjsonObject::SpeedSection { railjson } => {
                if self.speed_section_dependencies.contains_key(&railjson.id) {
                    return Err(InfraError::InvariantViolation);
                }
                let tracks0 = railjson.get_track_referenced_id();
                self.speed_section_dependencies.insert_new(railjson.id.clone(), tracks0);
                let tracks = railjson.get_track_referenced_id();
                let rr = ObjectRef::new(ObjectType::SpeedSection, railjson.id.clone());
                let ghost c1 = self@;
                let mut i: usize = 0;
                while i < tracks.len()
                    invariant
                        self.inv(),
                        i <= tracks@.len(),
                        tracks.deep_view() == railjson.spec_track_refs(),
                        rr@ == (ObjectType::SpeedSection, railjson.id@),
                        self@.signal_deps == c1.signal_deps,
                        self@.speed_deps == c1.speed_deps,
                        self@.track_refs == add_ref_tracks(
                            c1.track_refs,
                            tracks.deep_view().take(i as int),
                            rr@,
                        ),
                    decreases tracks@.len() - i,
                {
                    let ghost pre = self@.track_refs;
                    self.add_track_ref(&tracks[i], ObjectRef::new(rr.obj_type, rr.obj_id.clone()));
                    proof {
                        let td = tracks.deep_view();
                        assert(td.take(i + 1).drop_last() =~= td.take(i as int));
                        assert(td.take(i + 1).last() == td[i as int]);
                        assert(tracks[i as int]@ == td[i as int]);
                        assert(self@.track_refs == add_ref_tracks(
                            c1.track_refs,
                            td.take(i + 1),
                            rr@,
                        ));
                    }
                    i += 1;
                }
                proof {
                    let td = tracks.deep_view();
                    assert(td.take(td.len() as int) =~= td);
                    assert(railjson_obj.spec_cache_tracks() == railjson.spec_track_refs());
                    assert(railjson_obj.spec_ref() == rr@);
                    assert(self@ == spec_create(c0, *railjson_obj));
                    if c0.wf() {
                        lemma_create_preserves_wf(c0, *railjson_obj);
                    }
                }
                Ok(())
            },
            _ => {
                proof {
                    assert(self@ == spec_create(c0, *railjson_obj));
                }
                Ok(())
            },
        }
    }

    /// Applies a delete operation: removes the forward entry and removes the
    /// reference from the reverse set of every track it used to reference.
    /// Fails with `InvariantViolation`, leaving the cache unchanged, when the
    /// forward entry does not exist.
    pub fn apply_delete(&mut self, object_ref: &ObjectRef) -> (r: Result<(), InfraError>)
        requires
            old(self).inv(),
        ensures
            final(self).inv(),
            match r {
                Ok(()) => spec_delete_ok(old(self)@, object_ref@) && final(self)@ == spec_delete(
                    old(self)@,
                    object_ref@,
                ),
                Err(e) => e is InvariantViolation && !spec_delete_ok(old(self)@, object_ref@)
                    && final(self)@ == old(self)@,
            },
            old(self)@.wf() ==> final(self)@.wf(),
    {
        let ghost c0 = self@;
        proof {
            if c0.wf() {
                lemma_delete_preserves_wf(c0, object_ref@);
            }
        }
        match object_ref.obj_type {
            ObjectType::Signal => {
                match self.signal_dependencies.remove(&object_ref.obj_id) {
                    None => Err(InfraError::InvariantViolation),
                    Some(track) => {
                        self.remove_track_ref(&track, object_ref);
                        proof {
                            let tracks = seq![c0.signal_deps[object_ref.obj_id@]];
                            assert(tracks.drop_last() =~= Seq::<Seq<char>>::empty());
                            assert(tracks.last() == track@);
                            assert(remove_ref_tracks(c0.track_refs, tracks.drop_last(), object_ref@)
                                == c0.track_refs);
                            assert(remove_ref_tracks(c0.track_refs, tracks, object_ref@)
                                == remove_ref_at(c0.track_refs, track@, object_ref@));
                            assert(self@ == spec_delete(c0, object_ref@));
                        }
                        Ok(())
                    },
                }
            },
            ObjectType::SpeedSection => {
                match self.speed_section_dependencies.remove(&object_ref.obj_id) {
                    None => Err(InfraError::InvariantViolation),
                    Some(track_ids) => {
                        let ghost c1 = self@;
                        let ghost deps = c0.speed_deps[object_ref.obj_id@];
                        let mut i: usize = 0;
                        while i < track_ids.len()
                            invariant
                                self.inv(),
                                i <= track_ids@.len(),
                                track_ids.deep_view() == deps,
                                self@.signal_deps == c1.signal_deps,
                                self@.speed_deps == c1.speed_deps,
                                self@.track_refs == remove_ref_tracks(
                                    c1.track_refs,
                                    deps.take(i as int),
                                    object_ref@,
                                ),
                            decreases track_ids@.len() - i,
                        {
                            self.remove_track_ref(&track_ids[i], object_ref);
                            proof {
                                assert(deps.take(i + 1).drop_last() =~= deps.take(i as int));
                                assert(deps.take(i + 1).last() == deps[i as int]);
                                assert(track_ids[i as int]@ == deps[i as int]);
                                assert(self@.track_refs == remove_ref_tracks(
                                    c1.track_refs,
                                    deps.take(i + 1),
                                    object_ref@,
                                ));
                            }
                            i += 1;
                        }
                        proof {
                            assert(deps.take(deps.len() as int) =~= deps);
                            assert(self@ == spec_delete(c0, object_ref@));
                        }
                        Ok(())
                    },
                }
            },
            _ => {
                proof {
                    assert(self@ == spec_delete(c0, object_ref@));
                }
                Ok(())
            },
        }
    }

    /// Applies an update operation: a delete of the object's current forward
    /// entry followed by a create of the new payload. Fails with
    /// `InvariantViolation`, leaving the cache unchanged, when the forward
    /// entry does not exist.
    pub fn apply_update(&mut self, railjson_obj: &RailjsonObject) -> (r: Result<(), InfraError>)
        requires
            old(self).inv(),
        ensures
            final(self).inv(),
            match r {
                Ok(()) => spec_update_ok(old(self)@, *railjson_obj) && final(self)@ == spec_update(
                    old(self)@,
                    *railjson_obj,
                ),
                Err(e) => e is InvariantViolation && !spec_update_ok(old(self)@, *railjson_obj)
                    && final(self)@ == old(self)@,
            },
            old(self)@.wf() ==> final(self)@.wf(),
    {
        let ghost c0 = self@;
        let obj_ref = railjson_obj.get_ref();
        match self.apply_delete(&obj_ref) {
            Err(e) => Err(e),
            Ok(()) => {
                proof {
                    let c1 = spec_delete(c0, railjson_obj.spec_ref());
                    assert(spec_create_ok(c1, *railjson_obj));
                }
                let res = self.apply_create(railjson_obj);
                match res {
                    Ok(()) => Ok(()),
                    Err(e) => Err(e),
                }
            },
        }
    }

    /// Applies one operation to the cache.
    pub fn apply(&mut self, operation: &Operation) -> (r: Result<(), InfraError>)
        requires
            old(self).inv(),
        ensures
            final(self).inv(),
            match r {
                Ok(()) => spec_apply_ok(old(self)@, *operation) && final(self)@ == spec_apply(
                    old(self)@,
                    *operation,
                ),
                Err(e) => e is InvariantViolation && !spec_apply_ok(old(self)@, *operation)
                    && final(self)@ == old(self)@,
            },
            old(self)@.wf() ==> final(self)@.wf(),
    {
        match operation {
            Operation::Delete(obj_ref) => self.apply_delete(obj_ref),
            Operation::Update(update) => self.apply_update(&update.railjson),
            Operation::Create(railjson_obj) => self.apply_create(railjson_obj),
        }
    }

    /// All references of the given kind depending on `track_id`; empty when
    /// the track id is unknown.
    pub fn get_track_refs_type(&self, track_id: &String, obj_type: ObjectType) -> (r: Vec<
        ObjectRef,
    >)
        requires
            self.inv(),
        ensures
            forall|p: int, q: int|
                0 <= p < q < r.deep_view().len() ==> r.deep_view()[p] != r.deep_view()[q],
            forall|x: (ObjectType, Seq<char>)|
                #[trigger] r.deep_view().contains(x) <==> (self@.refs_of(track_id@).contains(x)
                    && x.0 == obj_type),
    {
        let mut res: Vec<ObjectRef> = Vec::new();
        match self.track_sections_refs.get(track_id) {
            None => {
                proof {
                    assert(res.deep_view().len() == 0);
                    assert(!self@.track_refs.dom().contains(track_id@));
                    assert forall|x: (ObjectType, Seq<char>)|
                        !(#[trigger] res.deep_view().contains(x)) by {
                        if res.deep_view().contains(x) {
                            let j = choose|j: int|
                                0 <= j < res.deep_view().len() && res.deep_view()[j] == x;
                        }
                    }
                }
                res
            },
            Some(v) => {
                let ghost vd = v.deep_view();
                let mut i: usize = 0;
                while i < v.len()
                    invariant
                        self.inv(),
                        i <= v@.len(),
                        vd == v.deep_view(),
                        self@.track_refs.dom().contains(track_id@),
                        self@.track_refs[track_id@] == vd.to_set(),
                        forall|p: int, q: int| 0 <= p < q < vd.len() ==> vd[p] != vd[q],
                        forall|p: int, q: int|
                            0 <= p < q < res.deep_view().len() ==> res.deep_view()[p]
                                != res.deep_view()[q],
                        forall|x: (ObjectType, Seq<char>)|
                            #[trigger] res.deep_view().contains(x) <==> (exists|j: int|
                                0 <= j < i && vd[j] == x && x.0 == obj_type),
                    decreases v@.len() - i,
                {
                    if v[i].obj_type == obj_type {
                        let ghost pre = res.deep_view();
                        res.push(ObjectRef::new(v[i].obj_type, v[i].obj_id.clone()));
                        proof {
                            assert(res.deep_view() =~= pre.push(vd[i as int]));
                            assert forall|p: int, q: int|
                                0 <= p < q < res.deep_view().len() implies res.deep_view()[p]
                                != res.deep_view()[q] by {
                                if q == res.deep_view().len() - 1 {
                                    assert(res.deep_view()[p] == pre[p]);
                                    if pre[p] == vd[i as int] {
                                        assert(pre.contains(vd[i as int]));
                                        let j = choose|j: int|
                                            0 <= j < i && vd[j] == vd[i as int]
                                                && vd[i as int].0 == obj_type;
                                        assert(vd[j] == vd[i as int]);
                                    }
                                }
                            }
                            assert forall|x: (ObjectType, Seq<char>)| #[trigger]
                                res.deep_view().contains(x) implies (exists|j: int|
                                0 <= j < i + 1 && vd[j] == x && x.0 == obj_type) by {
                                let j = choose|j: int|
                                    0 <= j < res.deep_view().len() && res.deep_view()[j] == x;
                                if j < pre.len() {
                                    assert(pre.contains(x));
                                } else {
                                    assert(vd[i as int] == x);
                                }
                            }
                            assert forall|x: (ObjectType, Seq<char>)|
                                (exists|j: int| 0 <= j < i + 1 && vd[j] == x && x.0 == obj_type)
                                implies #[trigger] res.deep_view().contains(x) by {
                                let j = choose|j: int| 0 <= j < i + 1 && vd[j] == x && x.0 == obj_type;
                                if j < i {
                                    assert(pre.contains(x));
                                    let jj = choose|jj: int| 0 <= jj < pre.len() && pre[jj] == x;
                                    assert(res.deep_view()[jj] == x);
                                } else {
                                    assert(res.deep_view()[res.deep_view().len() - 1] == x);
                                }
                            }
                        }
                    } else {
                        proof {
                            assert forall|x: (ObjectType, Seq<char>)| #[trigger]
                                res.deep_view().contains(x) implies (exists|j: int|
                                0 <= j < i + 1 && vd[j] == x && x.0 == obj_type) by {}
                            assert forall|x: (ObjectType, Seq<char>)|
                                (exists|j: int| 0 <= j < i + 1 && vd[j] == x && x.0 == obj_type)
                                implies #[trigger] res.deep_view().contains(x) by {
                                let j = choose|j: int| 0 <= j < i + 1 && vd[j] == x && x.0 == obj_type;
                                assert(vd[i as int].0 != obj_type);
                                assert(j < i);
                            }
                        }
                    }
                    i += 1;
                }
                proof {
                    assert forall|x: (ObjectType, Seq<char>)| #[trigger]
                        res.deep_view().contains(x) <==> (self@.refs_of(track_id@).contains(x)
                        && x.0 == obj_type) by {
                        if self@.refs_of(track_id@).contains(x) && x.0 == obj_type {
                            let j = choose|j: int| 0 <= j < vd.len() && vd[j] == x;
                        }
                    }
                }
                res
            },
        }
    }

    /// Records the objects of one kind depending on the given track in
    /// `update_lists`, under that kind.
    fn add_kind_dependencies(
        &self,
        track_id: &String,
        kind: ObjectType,
        update_lists: &mut crate::operation::UpdateLists,
    )
        requires
            self.inv(),
            old(update_lists).inv(),
        ensures
            final(update_lists).inv(),
            forall|kk: ObjectType|
                (#[trigger] final(update_lists).spec_get(kk)) == (if kk == kind {
                    old(update_lists).spec_get(kk).union(
                        crate::layer::deps_of_kind(self@, track_id@, kind),
                    )
                } else {
                    old(update_lists).spec_get(kk)
                }),
    {
        let refs = self.get_track_refs_type(track_id, kind);
        let ghost rd = refs.deep_view();
        let mut j: usize = 0;
        while j < refs.len()
            invariant
                j <= rd.len(),
                rd == refs.deep_view(),
                update_lists.inv(),
                forall|x: (ObjectType, Seq<char>)|
                    #[trigger] rd.contains(x) <==> (self@.refs_of(track_id@).contains(x) && x.0
                        == kind),
                forall|kk: ObjectType|
                    kk != kind ==> (#[trigger] update_lists.spec_get(kk)) == old(
                        update_lists,
                    ).spec_get(kk),
                forall|x: Seq<char>|
                    #[trigger] update_lists.spec_get(kind).contains(x) <==> (old(
                        update_lists,
                    ).spec_get(kind).contains(x) || (exists|jj: int|
                        0 <= jj < j && rd[jj].1 == x)),
            decreases rd.len() - j,
        {
            update_lists.insert(kind, &refs[j].obj_id);
            proof {
                assert(rd[j as int] == refs@[j as int]@);
                assert(refs@[j as int].obj_id@ == rd[j as int].1);
                assert forall|x: Seq<char>| #[trigger]
                    update_lists.spec_get(kind).contains(x) <==> (old(update_lists).spec_get(
                    kind,
                ).contains(x) || (exists|jj: int| 0 <= jj < j + 1 && rd[jj].1 == x)) by {
                    if update_lists.spec_get(kind).contains(x) {
                        if !old(update_lists).spec_get(kind).contains(x) {
                            if x == rd[j as int].1 {
                                assert(0 <= j < j + 1 && rd[j as int].1 == x);
                            }
                        }
                    }
                }
            }
            j += 1;
        }
        proof {
            assert forall|kk: ObjectType|
                (#[trigger] update_lists.spec_get(kk)) == (if kk == kind {
                    old(update_lists).spec_get(kk).union(
                        crate::layer::deps_of_kind(self@, track_id@, kind),
                    )
                } else {
                    old(update_lists).spec_get(kk)
                }) by {
                if kk == kind {
                    assert forall|x: Seq<char>| #[trigger]
                        update_lists.spec_get(kind).contains(x) <==> (old(update_lists).spec_get(
                        kind,
                    ).contains(x) || crate::layer::deps_of_kind(
                        self@,
                        track_id@,
                        kind,
                    ).contains(x)) by {
                        if crate::layer::deps_of_kind(self@, track_id@, kind).contains(x) {
                            assert(self@.refs_of(track_id@).contains((kind, x)));
                            assert(rd.contains((kind, x)));
                            let jj = choose|jj: int| 0 <= jj < rd.len() && rd[jj] == (kind, x);
                            assert(rd[jj].1 == x);
                        }
                        if update_lists.spec_get(kind).contains(x) && !old(
                            update_lists,
                        ).spec_get(kind).contains(x) {
                            let jj = choose|jj: int| 0 <= jj < rd.len() && rd[jj].1 == x;
                            assert(rd.contains(rd[jj]));
                            assert(self@.refs_of(track_id@).contains(rd[jj]));
                            assert(rd[jj].0 == kind);
                            assert(rd[jj] == (kind, x));
                            assert(crate::layer::deps_of_kind(self@, track_id@, kind).contains(
                                x,
                            ));
                        }
                    }
                    assert(update_lists.spec_get(kind) =~= old(update_lists).spec_get(
                        kind,
                    ).union(crate::layer::deps_of_kind(self@, track_id@, kind)));
                }
            }
        }
    }

    /// Records every object depending on the given track in `update_lists`,
    /// under each dependent's own kind. Only signals and speed sections
    /// carry track references, so only those kinds can gain entries.
    pub fn get_tracks_dependencies(
        &self,
        track_id: &String,
        update_lists: &mut crate::operation::UpdateLists,
    )
        requires
            self.inv(),
            old(update_lists).inv(),
        ensures
            final(update_lists).inv(),
            forall|kk: ObjectType|
                (#[trigger] final(update_lists).spec_get(kk)) == (if kk == ObjectType::Signal
                    || kk == ObjectType::SpeedSection {
                    old(update_lists).spec_get(kk).union(
                        crate::layer::deps_of_kind(self@, track_id@, kk),
                    )
                } else {
                    old(update_lists).spec_get(kk)
                }),
    {
        self.add_kind_dependencies(track_id, ObjectType::Signal, update_lists);
        self.add_kind_dependencies(track_id, ObjectType::SpeedSection, update_lists);
    }

    /// Adds, for every link, the object's reference to the reverse set of
    /// the linked track.
    pub fn add_tracks_refs(&mut self, refs: &Vec<ObjRefLink>, obj_type: ObjectType)
        requires
            old(self).inv(),
        ensures
            final(self).inv(),
            final(self)@.signal_deps == old(self)@.signal_deps,
            final(self)@.speed_deps == old(self)@.speed_deps,
            final(self)@.track_refs == spec_add_links_refs(
                old(self)@.track_refs,
                refs.deep_view(),
                obj_type,
            ),
    {
        let ghost m0 = self@.track_refs;
        let ghost ld = refs.deep_view();
        let mut i: usize = 0;
        while i < refs.len()
            invariant
                self.inv(),
                i <= ld.len(),
                ld == refs.deep_view(),
                self@.signal_deps == old(self)@.signal_deps,
                self@.speed_deps == old(self)@.speed_deps,
                self@.track_refs == spec_add_links_refs(m0, ld.take(i as int), obj_type),
            decreases ld.len() - i,
        {
            let link = &refs[i];
            self.add_track_ref(&link.ref_id, ObjectRef::new(obj_type, link.obj_id.clone()));
            proof {
                assert(ld[i as int] == refs@[i as int]@);
                let t1 = ld.take(i + 1);
                assert(t1.drop_last() =~= ld.take(i as int));
                assert(t1.last() == ld[i as int]);
                assert(self@.track_refs == spec_add_links_refs(m0, t1, obj_type));
            }
            i += 1;
        }
        proof {
            assert(ld.take(ld.len() as int) =~= ld);
        }
    }

    /// Records, for every link, the signal's one referenced track,
    /// overwriting an earlier entry with the same signal id.
    pub fn add_signal_dependencies(&mut self, refs: &Vec<ObjRefLink>)
        requires
            old(self).inv(),
        ensures
            final(self).inv(),
            final(self)@.speed_deps == old(self)@.speed_deps,
            final(self)@.track_refs == old(self)@.track_refs,
            final(self)@.signal_deps == spec_set_links(old(self)@.signal_deps, refs.deep_view()),
    {
        let ghost m0 = self@.signal_deps;
        let ghost ld = refs.deep_view();
        let mut i: usize = 0;
        while i < refs.len()
            invariant
                self.inv(),
                i <= ld.len(),
                ld == refs.deep_view(),
                self@.speed_deps == old(self)@.speed_deps,
                self@.track_refs == old(self)@.track_refs,
                self@.signal_deps == spec_set_links(m0, ld.take(i as int)),
            decreases ld.len() - i,
        {
            let link = &refs[i];
            self.signal_dependencies.set(link.obj_id.clone(), link.ref_id.clone());
            proof {
                assert(ld[i as int] == refs@[i as int]@);
                let t1 = ld.take(i + 1);
                assert(t1.drop_last() =~= ld.take(i as int));
                assert(t1.last() == ld[i as int]);
            }
            i += 1;
        }
        proof {
            assert(ld.take(ld.len() as int) =~= ld);
        }
    }

    /// Appends, for every link, the linked track to the speed section's
    /// ordered track list, creating the entry if absent.
    pub fn add_speed_section_dependencies(&mut self, refs: &Vec<ObjRefLink>)
        requires
            old(self).inv(),
        ensures
            final(self).inv(),
            final(self)@.signal_deps == old(self)@.signal_deps,
            final(self)@.track_refs == old(self)@.track_refs,
            final(self)@.speed_deps == spec_push_links(old(self)@.speed_deps, refs.deep_view()),
    {
        let ghost m0 = self@.speed_deps;
        let ghost ld = refs.deep_view();
        let mut i: usize = 0;
        while i < refs.len()
            invariant
                self.inv(),
                i <= ld.len(),
                ld == refs.deep_view(),
                self@.signal_deps == old(self)@.signal_deps,
                self@.track_refs == old(self)@.track_refs,
                self@.speed_deps == spec_push_links(m0, ld.take(i as int)),
            decreases ld.len() - i,
        {
            let link = &refs[i];
            let ghost pre = self@.speed_deps;
            match self.speed_section_dependencies.remove(&link.obj_id) {
                Some(mut v) => {
                    let ghost vd = v.deep_view();
                    v.push(link.ref_id.clone());
                    proof {
                        assert(v.deep_view() =~= vd.push(link.ref_id@));
                    }
                    self.speed_section_dependencies.insert_new(link.obj_id.clone(), v);
                    proof {
                        assert(self@.speed_deps =~= pre.insert(
                            link.obj_id@,
                            pre[link.obj_id@].push(link.ref_id@),
                        ));
                    }
                },
                None => {
                    let mut v: Vec<String> = Vec::new();
                    v.push(link.ref_id.clone());
                    proof {
                        assert(v.deep_view() =~= Seq::<Seq<char>>::empty().push(link.ref_id@));
                    }
                    self.speed_section_dependencies.insert_new(link.obj_id.clone(), v);
                    proof {
                        assert(self@.speed_deps =~= pre.insert(
                            link.obj_id@,
                            Seq::<Seq<char>>::empty().push(link.ref_id@),
                        ));
                    }
                },
            }
            proof {
                assert(ld[i as int] == refs@[i as int]@);
                let t1 = ld.take(i + 1);
                assert(t1.drop_last() =~= ld.take(i as int));
                assert(t1.last() == ld[i as int]);
                assert(self@.speed_deps == spec_push_links(m0, t1));
            }
            i += 1;
        }
        proof {
            assert(ld.take(ld.len() as int) =~= ld);
        }
    }

    /// Builds the cache of one infrastructure from the canonical store's
    /// bulk projections: one link per signal, one link per speed-section
    /// track range. Each signal id must occur at most once.
    pub fn init(
        signal_track_links: &Vec<ObjRefLink>,
        speed_section_track_links: &Vec<ObjRefLink>,
    ) -> (r: InfraCache)
        requires
            forall|p: int, q: int|
                0 <= p < q < signal_track_links.deep_view().len()
                    ==> signal_track_links.deep_view()[p].0 != signal_track_links.deep_view()[q].0,
        ensures
            r.inv(),
            r@.signal_deps == spec_set_links(
                Map::<Seq<char>, Seq<char>>::empty(),
                signal_track_links.deep_view(),
            ),
            r@.speed_deps == spec_push_links(
                Map::<Seq<char>, Seq<Seq<char>>>::empty(),
                speed_section_track_links.deep_view(),
            ),
            r@.track_refs == spec_add_links_refs(
                spec_add_links_refs(
                    Map::<Seq<char>, Set<(ObjectType, Seq<char>)>>::empty(),
                    signal_track_links.deep_view(),
                    ObjectType::Signal,
                ),
                speed_section_track_links.deep_view(),
                ObjectType::SpeedSection,
            ),
            r@.wf(),
    {
        let mut infra_cache = InfraCache::new();
        infra_cache.add_tracks_refs(signal_track_links, ObjectType::Signal);
        infra_cache.add_signal_dependencies(signal_track_links);
        infra_cache.add_tracks_refs(speed_section_track_links, ObjectType::SpeedSection);
        infra_cache.add_speed_section_dependencies(speed_section_track_links);
        proof {
            lemma_init_wf(
                infra_cache@,
                signal_track_links.deep_view(),
                speed_section_track_links.deep_view(),
            );
        }
        infra_cache
    }

    /// Removes `r` from the reverse set of `track`, dropping the entry when
    /// it becomes empty.
    fn remove_track_ref(&mut self, track: &String, r: &ObjectRef)
        requires
            old(self).inv(),
        ensures
            final(self).inv(),
            final(self)@.signal_deps == old(self)@.signal_deps,
            final(self)@.speed_deps == old(self)@.speed_deps,
            final(self)@.track_refs == remove_ref_at(old(self)@.track_refs, track@, r@),
    {
        let ghost m0 = self@.track_refs;
        let ghost rv0 = self.track_sections_refs@;
        match self.track_sections_refs.remove(track) {
            Some(mut v) => {
                let ghost vseq = v.deep_view();
                proof {
                    assert(rv0.dom().contains(track@));
                    assert(vseq == rv0[track@]);
                }
                match find_ref(&v, r) {
                    Some(i) => {
                        v.remove(i);
                        proof {
                            assert(v.deep_view() =~= vseq.remove(i as int));
                            lemma_remove_to_set(vseq, i as int);
                            assert(v.deep_view().to_set() == vseq.to_set().remove(r@));
                            assert forall|p: int, q: int|
                                0 <= p < q < v.deep_view().len() implies v.deep_view()[p]
                                != v.deep_view()[q] by {
                                let p0: int = if p < i as int { p } else { p + 1 };
                                let q0: int = if q < i as int { q } else { q + 1 };
                                assert(vseq[p0] != vseq[q0]);
                            }
                        }
                        if v.len() > 0 {
                            proof {
                                assert(v.deep_view().to_set().contains(v.deep_view()[0]));
                                assert(set_nonempty(m0[track@].remove(r@)));
                            }
                            self.track_sections_refs.insert_new(track.clone(), v);
                        } else {
                            proof {
                                assert(v.deep_view().to_set() =~= Set::<(
                                    ObjectType,
                                    Seq<char>,
                                )>::empty());
                                assert(!set_nonempty(m0[track@].remove(r@)));
                            }
                        }
                    },
                    None => {
                        proof {
                            assert(vseq.to_set().remove(r@) =~= vseq.to_set());
                            assert(vseq.to_set().contains(vseq[0]));
                            assert(set_nonempty(m0[track@].remove(r@)));
                        }
                        self.track_sections_refs.insert_new(track.clone(), v);
                    },
                }
            },
            None => {},
        }
        proof {
            assert(self@.track_refs =~= remove_ref_at(m0, track@, r@));
            assert forall|t: Seq<char>| #[trigger]
                self.track_sections_refs@.dom().contains(t) implies {
                let s = self.track_sections_refs@[t];
                s.len() > 0 && (forall|p: int, q: int| 0 <= p < q < s.len() ==> s[p] != s[q])
            } by {
                if t != track@ {
                    assert(self.track_sections_refs@[t] == rv0[t]);
                    assert(rv0.dom().contains(t));
                }
            }
        }
    }
}

} // verus!
