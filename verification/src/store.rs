//! An in-memory model of one infrastructure's canonical object set.
//!
//! The relational store itself is a collaborator; this model carries the
//! objects the library's derived data is computed from, keyed by kind and
//! id, and applies edit batches to them with the same admissibility rules as
//! the dependency cache.

use vstd::prelude::*;
use crate::errors::InfraError;
use crate::operation::Operation;
use crate::schema::{ObjectType, RailjsonObject};

verus! {

/// The mathematical state of the object set: payloads keyed by reference.
pub type StoreView = Map<(ObjectType, Seq<char>), RailjsonObject>;

/// Every payload is stored under its own reference.
pub open spec fn store_wf(s: StoreView) -> bool {
    forall|k: (ObjectType, Seq<char>)| #[trigger] s.dom().contains(k) ==> s[k].spec_ref() == k
}

/// Whether `op` is admissible against the object set.
pub open spec fn store_apply_ok(s: StoreView, op: Operation) -> bool {
    match op {
        Operation::Create(obj) => !s.dom().contains(obj.spec_ref()),
        Operation::Delete(r) => s.dom().contains(r@),
        Operation::Update(u) => s.dom().contains((u.obj_type, u.obj_id@)) && (
        u.railjson.spec_ref() == (u.obj_type, u.obj_id@) || !s.dom().contains(
            u.railjson.spec_ref(),
        )),
    }
}

/// The object set after an admissible operation.
pub open spec fn store_apply(s: StoreView, op: Operation) -> StoreView {
    match op {
        Operation::Create(obj) => s.insert(obj.spec_ref(), obj),
        Operation::Delete(r) => s.remove(r@),
        Operation::Update(u) => s.remove((u.obj_type, u.obj_id@)).insert(
            u.railjson.spec_ref(),
            u.railjson,
        ),
    }
}

/// Whether a whole batch applies cleanly, in order.
pub open spec fn spec_batch_ok(s: StoreView, ops: Seq<Operation>) -> bool
    decreases ops.len(),
{
    if ops.len() == 0 {
        true
    } else {
        spec_batch_ok(s, ops.drop_last()) && store_apply_ok(
            spec_apply_batch(s, ops.drop_last()),
            ops.last(),
        )
    }
}

/// The object set after a whole batch.
pub open spec fn spec_apply_batch(s: StoreView, ops: Seq<Operation>) -> StoreView
    decreases ops.len(),
{
    if ops.len() == 0 {
        s
    } else {
        store_apply(spec_apply_batch(s, ops.drop_last()), ops.last())
    }
}

/// A batch that applies cleanly has every prefix apply cleanly.
pub proof fn lemma_batch_ok_take(s: StoreView, ops: Seq<Operation>, i: int)
    requires
        spec_batch_ok(s, ops),
        0 <= i <= ops.len(),
    ensures
        spec_batch_ok(s, ops.take(i)),
    decreases ops.len(),
{
    if i < ops.len() {
        assert(ops.drop_last().take(i) =~= ops.take(i));
        lemma_batch_ok_take(s, ops.drop_last(), i);
    } else {
        assert(ops.take(i) =~= ops);
    }
}

/// An operation keeps every payload stored under its own reference.
pub proof fn lemma_apply_preserves_store_wf(s: StoreView, op: Operation)
    requires
        store_wf(s),
    ensures
        store_wf(store_apply(s, op)),
{
}

/// A batch keeps every payload stored under its own reference.
pub proof fn lemma_batch_preserves_store_wf(s: StoreView, ops: Seq<Operation>)
    requires
        store_wf(s),
    ensures
        store_wf(spec_apply_batch(s, ops)),
    decreases ops.len(),
{
    if ops.len() > 0 {
        lemma_batch_preserves_store_wf(s, ops.drop_last());
        lemma_apply_preserves_store_wf(spec_apply_batch(s, ops.drop_last()), ops.last());
    }
}

/// The in-memory object set of one infrastructure.
pub struct ObjectStore {
    objects: Vec<RailjsonObject>,
}

impl View for ObjectStore {
    type V = StoreView;

    closed spec fn view(&self) -> StoreView {
        ObjectStore::seq_store(self.objects@)
    }
}

impl Default for ObjectStore {
    fn default() -> (r: Self)
        ensures
            r.inv(),
            r@ == Map::<(ObjectType, Seq<char>), RailjsonObject>::empty(),
    {
        ObjectStore { objects: Vec::new() }
    }
}

impl ObjectStore {
    spec fn seq_store(s: Seq<RailjsonObject>) -> StoreView
        decreases s.len(),
    {
        if s.len() == 0 {
            Map::empty()
        } else {
            Self::seq_store(s.drop_last()).insert(s.last().spec_ref(), s.last())
        }
    }

    /// Structural well-formedness: object references are pairwise distinct.
    pub closed spec fn inv(self) -> bool {
        forall|i: int, j: int|
            0 <= i < j < self.objects@.len() ==> self.objects@[i].spec_ref()
                != self.objects@[j].spec_ref()
    }

    /// The stored payloads, in storage order.
    pub closed spec fn spec_objects(self) -> Seq<RailjsonObject> {
        self.objects@
    }

    spec fn has_ref_at(s: Seq<RailjsonObject>, k: (ObjectType, Seq<char>), i: int) -> bool {
        0 <= i < s.len() && s[i].spec_ref() == k
    }

    proof fn lemma_seq_store_dom(s: Seq<RailjsonObject>)
        ensures
            forall|k: (ObjectType, Seq<char>)|
                #[trigger] Self::seq_store(s).dom().contains(k) <==> (exists|i: int|
                    Self::has_ref_at(s, k, i)),
        decreases s.len(),
    {
        if s.len() > 0 {
            Self::lemma_seq_store_dom(s.drop_last());
            assert forall|k: (ObjectType, Seq<char>)| #[trigger]
                Self::seq_store(s).dom().contains(k) implies (exists|i: int|
                Self::has_ref_at(s, k, i)) by {
                if k == s.last().spec_ref() {
                    assert(Self::has_ref_at(s, k, s.len() - 1));
                } else {
                    assert(Self::seq_store(s.drop_last()).dom().contains(k));
                    let i = choose|i: int| Self::has_ref_at(s.drop_last(), k, i);
                    assert(Self::has_ref_at(s, k, i));
                }
            }
            assert forall|k: (ObjectType, Seq<char>)| (exists|i: int|
                Self::has_ref_at(s, k, i)) implies #[trigger]
                Self::seq_store(s).dom().contains(k) by {
                let i = choose|i: int| Self::has_ref_at(s, k, i);
                if i < s.len() - 1 {
                    assert(Self::has_ref_at(s.drop_last(), k, i));
                    assert(Self::seq_store(s.drop_last()).dom().contains(k));
                }
            }
        }
    }

    proof fn lemma_seq_store_get(s: Seq<RailjsonObject>, i: int)
        requires
            0 <= i < s.len(),
            forall|j: int| i < j < s.len() ==> s[j].spec_ref() != s[i].spec_ref(),
        ensures
            Self::seq_store(s).dom().contains(s[i].spec_ref()),
            Self::seq_store(s)[s[i].spec_ref()] == s[i],
        decreases s.len(),
    {
        Self::lemma_seq_store_dom(s);
        assert(Self::has_ref_at(s, s[i].spec_ref(), i));
        if i < s.len() - 1 {
            Self::lemma_seq_store_get(s.drop_last(), i);
        }
    }

    /// The payloads characterize the view: each is stored under its own
    /// reference, and every key is the reference of exactly one payload.
    pub proof fn lemma_view_characterization(self)
        requires
            self.inv(),
        ensures
            store_wf(self@),
            forall|p: int, q: int|
                0 <= p < q < self.spec_objects().len() ==> self.spec_objects()[p].spec_ref()
                    != self.spec_objects()[q].spec_ref(),
            forall|i: int|
                0 <= i < self.spec_objects().len() ==> #[trigger] self@.dom().contains(
                    self.spec_objects()[i].spec_ref(),
                ) && self@[self.spec_objects()[i].spec_ref()] == self.spec_objects()[i],
            forall|k: (ObjectType, Seq<char>)|
                #[trigger] self@.dom().contains(k) ==> exists|i: int|
                    0 <= i < self.spec_objects().len() && self.spec_objects()[i] == self@[k],
    {
        Self::lemma_seq_store_dom(self.objects@);
        assert forall|i: int| 0 <= i < self.spec_objects().len() implies #[trigger]
            self@.dom().contains(self.spec_objects()[i].spec_ref())
            && self@[self.spec_objects()[i].spec_ref()] == self.spec_objects()[i] by {
            Self::lemma_seq_store_get(self.objects@, i);
        }
        assert forall|k: (ObjectType, Seq<char>)| #[trigger]
            self@.dom().contains(k) implies (store_wf_at(self@, k) && exists|i: int|
            0 <= i < self.spec_objects().len() && self.spec_objects()[i] == self@[k]) by {
            let i = choose|i: int| Self::has_ref_at(self.objects@, k, i);
            Self::lemma_seq_store_get(self.objects@, i);
            assert(self.spec_objects()[i] == self@[k]);
        }
    }

    /// An empty object set.
    pub fn new() -> (r: Self)
        ensures
            r.inv(),
            r@ == Map::<(ObjectType, Seq<char>), RailjsonObject>::empty(),
    {
        Self::default()
    }

    /// How many objects are stored.
    pub fn object_count(&self) -> (r: usize)
        ensures
            r == self.spec_objects().len(),
    {
        self.objects.len()
    }

    /// The stored payload at position `i`.
    pub fn object_at(&self, i: usize) -> (r: &RailjsonObject)
        requires
            i < self.spec_objects().len(),
        ensures
            *r == self.spec_objects()[i as int],
    {
        &self.objects[i]
    }

    /// The payload stored under the given kind and id, if any.
    pub fn get(&self, obj_type: ObjectType, obj_id: &String) -> (r: Option<&RailjsonObject>)
        requires
            self.inv(),
        ensures
            match r {
                Some(obj) => self@.dom().contains((obj_type, obj_id@))
                    && *obj == self@[(obj_type, obj_id@)],
                None => !self@.dom().contains((obj_type, obj_id@)),
            },
    {
        let ghost k = (obj_type, obj_id@);
        let mut i: usize = 0;
        while i < self.objects.len()
            invariant
                self.inv(),
                i <= self.objects@.len(),
                k == (obj_type, obj_id@),
                forall|j: int| 0 <= j < i ==> self.objects@[j].spec_ref() != k,
            decreases self.objects@.len() - i,
        {
            let obj = &self.objects[i];
            if obj.get_type() == obj_type && *obj.get_id() == *obj_id {
                proof {
                    Self::lemma_seq_store_get(self.objects@, i as int);
                }
                return Some(obj);
            }
            i += 1;
        }
        proof {
            Self::lemma_seq_store_dom(self.objects@);
            assert forall|j: int| !Self::has_ref_at(self.objects@, k, j) by {}
        }
        None
    }

    /// Applies one operation to the object set, with the same admissibility
    /// rules as the dependency cache: a create of an existing reference and
    /// a delete or update of a missing one fail with `InvariantViolation`,
    /// leaving the set unchanged.
    pub fn apply_operation(&mut self, op: Operation) -> (r: Result<(), InfraError>)
        requires
            old(self).inv(),
        ensures
            final(self).inv(),
            match r {
                Ok(()) => store_apply_ok(old(self)@, op) && final(self)@ == store_apply(
                    old(self)@,
                    op,
                ),
                Err(e) => e is InvariantViolation && !store_apply_ok(old(self)@, op)
                    && final(self)@ == old(self)@,
            },
    {
        match op {
            Operation::Create(obj) => {
                if self.find_index(obj.get_type(), obj.get_id()).is_some() {
                    return Err(InfraError::InvariantViolation);
                }
                self.push_object(obj);
                Ok(())
            },
            Operation::Delete(obj_ref) => {
                match self.find_index(obj_ref.obj_type, &obj_ref.obj_id) {
                    None => Err(InfraError::InvariantViolation),
                    Some(i) => {
                        self.remove_at(i);
                        Ok(())
                    },
                }
            },
            Operation::Update(u) => {
                match self.find_index(u.obj_type, &u.obj_id) {
                    None => Err(InfraError::InvariantViolation),
                    Some(i) => {
                        let same = u.railjson.get_type() == u.obj_type
                            && *u.railjson.get_id() == u.obj_id;
                        if !same {
                            if self.find_index(u.railjson.get_type(), u.railjson.get_id())
                                .is_some() {
                                return Err(InfraError::InvariantViolation);
                            }
                        }
                        self.remove_at(i);
                        self.push_object(u.railjson);
                        Ok(())
                    },
                }
            },
        }
    }

    /// Applies a batch in order, stopping at the first inadmissible
    /// operation. On failure the set reflects the operations applied so far
    /// and must be discarded or rebuilt by the caller.
    pub fn apply_batch(&mut self, operations: Vec<Operation>) -> (r: Result<(), InfraError>)
        requires
            old(self).inv(),
        ensures
            final(self).inv(),
            match r {
                Ok(()) => spec_batch_ok(old(self)@, operations@) && final(self)@
                    == spec_apply_batch(old(self)@, operations@),
                Err(e) => e is InvariantViolation && !spec_batch_ok(old(self)@, operations@),
            },
    {
        let ghost s0 = self@;
        let ghost ops0 = operations@;
        let mut remaining = operations;
        let ghost mut i: int = 0;
        while remaining.len() > 0
            invariant
                self.inv(),
                0 <= i <= ops0.len(),
                old(self)@ == s0,
                operations@ == ops0,
                remaining@ == ops0.skip(i),
                spec_batch_ok(s0, ops0.take(i)),
                self@ == spec_apply_batch(s0, ops0.take(i)),
            decreases remaining@.len(),
        {
            let op = remaining.remove(0);
            proof {
                assert(op == ops0[i]);
                assert(remaining@ =~= ops0.skip(i + 1));
            }
            match self.apply_operation(op) {
                Ok(()) => {
                    proof {
                        let t1 = ops0.take(i + 1);
                        assert(t1.drop_last() =~= ops0.take(i));
                        assert(t1.last() == ops0[i]);
                    }
                },
                Err(e) => {
                    proof {
                        let t1 = ops0.take(i + 1);
                        assert(t1.drop_last() =~= ops0.take(i));
                        assert(t1.last() == ops0[i]);
                        assert(!spec_batch_ok(s0, t1));
                        if spec_batch_ok(s0, ops0) {
                            lemma_batch_ok_take(s0, ops0, i + 1);
                            assert(spec_batch_ok(s0, t1));
                        }
                        assert(!spec_batch_ok(s0, ops0));
                    }
                    return Err(e);
                },
            }
            proof {
                i = i + 1;
            }
        }
        proof {
            assert(i == ops0.len());
            assert(ops0.take(ops0.len() as int) =~= ops0);
        }
        Ok(())
    }

    fn find_index(&self, obj_type: ObjectType, obj_id: &String) -> (r: Option<usize>)
        requires
            self.inv(),
        ensures
            match r {
                Some(i) => i < self.spec_objects().len()
                    && self.spec_objects()[i as int].spec_ref() == (obj_type, obj_id@)
                    && self@.dom().contains((obj_type, obj_id@)),
                None => !self@.dom().contains((obj_type, obj_id@)),
            },
    {
        let ghost k = (obj_type, obj_id@);
        let mut i: usize = 0;
        while i < self.objects.len()
            invariant
                self.inv(),
                i <= self.objects@.len(),
                k == (obj_type, obj_id@),
                forall|j: int| 0 <= j < i ==> self.objects@[j].spec_ref() != k,
            decreases self.objects@.len() - i,
        {
            let obj = &self.objects[i];
            if obj.get_type() == obj_type && *obj.get_id() == *obj_id {
                proof {
                    Self::lemma_seq_store_dom(self.objects@);
                    assert(Self::has_ref_at(self.objects@, k, i as int));
                }
                return Some(i);
            }
            i += 1;
        }
        proof {
            Self::lemma_seq_store_dom(self.objects@);
            assert forall|j: int| !Self::has_ref_at(self.objects@, k, j) by {}
        }
        None
    }

    /// Appends an object whose reference is not present yet.
    fn push_object(&mut self, obj: RailjsonObject)
        requires
            old(self).inv(),
            !old(self)@.dom().contains(obj.spec_ref()),
        ensures
            final(self).inv(),
            final(self)@ == old(self)@.insert(obj.spec_ref(), obj),
    {
        proof {
            Self::lemma_seq_store_dom(self.objects@);
        }
        let ghost s0 = self.objects@;
        self.objects.push(obj);
        proof {
            assert(self.objects@.drop_last() =~= s0);
            assert forall|i: int, j: int|
                0 <= i < j < self.objects@.len() implies self.objects@[i].spec_ref()
                != self.objects@[j].spec_ref() by {
                if j == self.objects@.len() - 1 {
                    assert(!Self::has_ref_at(s0, self.objects@[j].spec_ref(), i));
                }
            }
        }
    }

    /// Removes the object at position `i`.
    fn remove_at(&mut self, i: usize)
        requires
            old(self).inv(),
            i < old(self).spec_objects().len(),
        ensures
            final(self).inv(),
            final(self)@ == old(self)@.remove(old(self).spec_objects()[i as int].spec_ref()),
    {
        let ghost s0 = self.objects@;
        proof {
            Self::lemma_seq_store_remove(s0, i as int);
        }
        self.objects.remove(i);
        proof {
            assert forall|p: int, q: int|
                0 <= p < q < self.objects@.len() implies self.objects@[p].spec_ref()
                != self.objects@[q].spec_ref() by {
                let p0: int = if p < i as int { p } else { p + 1 };
                let q0: int = if q < i as int { q } else { q + 1 };
                assert(s0[p0].spec_ref() != s0[q0].spec_ref());
            }
        }
    }

    proof fn lemma_seq_store_remove(s: Seq<RailjsonObject>, i: int)
        requires
            0 <= i < s.len(),
            forall|p: int, q: int| 0 <= p < q < s.len() ==> s[p].spec_ref() != s[q].spec_ref(),
        ensures
            Self::seq_store(s.remove(i)) == Self::seq_store(s).remove(s[i].spec_ref()),
        decreases s.len(),
    {
        Self::lemma_seq_store_dom(s.remove(i));
        Self::lemma_seq_store_dom(s);
        if i == s.len() - 1 {
            assert(s.remove(i) =~= s.drop_last());
            assert forall|k: (ObjectType, Seq<char>)| #[trigger]
                Self::seq_store(s.drop_last()).dom().contains(k) implies k
                != s[i].spec_ref() by {
                let j = choose|j: int| Self::has_ref_at(s.drop_last(), k, j);
                assert(s[j].spec_ref() == k);
            }
            assert(Self::seq_store(s.drop_last()) =~= Self::seq_store(s).remove(s[i].spec_ref()));
        } else {
            Self::lemma_seq_store_remove(s.drop_last(), i);
            assert(s.remove(i).drop_last() =~= s.drop_last().remove(i));
            assert(s.remove(i).last() == s.last());
            assert(Self::seq_store(s.remove(i)) == Self::seq_store(s.drop_last().remove(i)).insert(
                s.last().spec_ref(),
                s.last(),
            ));
            assert(s[i].spec_ref() != s.last().spec_ref());
            assert(Self::seq_store(s.drop_last()).remove(s[i].spec_ref()).insert(
                s.last().spec_ref(),
                s.last(),
            ) =~= Self::seq_store(s).remove(s[i].spec_ref()));
        }
    }
}

/// Spec-level helper naming the `store_wf` condition at one key.
pub open spec fn store_wf_at(s: StoreView, k: (ObjectType, Seq<char>)) -> bool {
    s.dom().contains(k) ==> s[k].spec_ref() == k
}

} // verus!
