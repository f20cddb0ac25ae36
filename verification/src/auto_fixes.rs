//! Rule-based proposals of corrective edits for recognized consistency
//! errors.
//!
//! The validation pass (an external collaborator) reports errors about one
//! object; the engine maps each recognized kind to a corrective operation.
//! Operations are returned, never applied: application is a caller-driven,
//! auditable step through the operation applier.

use vstd::prelude::*;
use crate::errors::InfraError;
use crate::operation::Operation;
use crate::schema::{ObjectRef, ObjectType, SwitchCache};

verus! {

/// The kinds of consistency error the validation pass reports.
#[derive(Clone, Debug)]
pub enum InfraErrorType {
    /// A switch's port topology does not match its switch model.
    InvalidSwitchPorts,
    /// A reference to an object that no longer exists.
    InvalidReference { reference: ObjectRef },
    /// A port name that the switch model does not offer.
    UnknownPortName { port_name: String },
    /// An object with no content at all.
    EmptyObject,
}

/// One reported consistency error: the implicated object and the kind.
#[derive(Clone, Debug)]
pub struct ConsistencyError {
    pub obj_ref: ObjectRef,
    pub sub_type: InfraErrorType,
}

impl ConsistencyError {
    pub fn get_sub_type(&self) -> (r: &InfraErrorType)
        ensures
            *r == self.sub_type,
    {
        &self.sub_type
    }
}

/// Whether a corrective rule is known for an error kind: invalid port
/// topology on a switch, or a dangling reference to a deleted track section.
pub open spec fn spec_fixable(k: InfraErrorType) -> bool {
    match k {
        InfraErrorType::InvalidSwitchPorts => true,
        InfraErrorType::InvalidReference { reference } => reference.obj_type
            == ObjectType::TrackSection,
        _ => false,
    }
}

/// The corrective pair for an object both rules map to: delete the object,
/// and with it its entry in the dependency cache.
pub fn new_ref_fix_delete_pair(switch: &SwitchCache) -> (r: (ObjectRef, Operation))
    ensures
        r.0@ == (ObjectType::Switch, switch.obj_id@),
        (r.1 matches Operation::Delete(d) && d@ == (ObjectType::Switch, switch.obj_id@)),
{
    let obj_ref = switch.get_ref();
    let target = ObjectRef::new(ObjectType::Switch, switch.obj_id.clone());
    (obj_ref, Operation::Delete(target))
}

/// Proposes corrective operations for one object: a mapping from the
/// object's reference to at most one operation, together with the reported
/// errors no rule recognizes (returned for diagnostics, never silently
/// dropped). Both recognized kinds map to the same corrective action:
/// delete the offending object, and with it its entry in the cache.
pub fn fix_object(object: &ObjectRef, errors: Vec<ConsistencyError>) -> (r: (
    Vec<(ObjectRef, Operation)>,
    Vec<ConsistencyError>,
))
    ensures
        (exists|j: int| 0 <= j < errors@.len() && spec_fixable(#[trigger] errors@[j].sub_type))
            ==> (r.0@.len() == 1 && r.0@[0].0@ == object@
            && (r.0@[0].1 matches Operation::Delete(d) && d@ == object@)),
        (forall|j: int|
            0 <= j < errors@.len() ==> !spec_fixable(#[trigger] errors@[j].sub_type)) ==> r.0@.len()
            == 0,
        r.1@ == errors@.filter(|e: ConsistencyError| !spec_fixable(e.sub_type)),
{
    let ghost errs = errors@;
    let mut remaining = errors;
    let mut unfixable: Vec<ConsistencyError> = Vec::new();
    let mut found = false;
    let ghost mut i: int = 0;
    while remaining.len() > 0
        invariant
            0 <= i <= errs.len(),
            errors@ == errs,
            remaining@ == errs.skip(i),
            found == (exists|j: int| 0 <= j < i && spec_fixable(#[trigger] errs[j].sub_type)),
            unfixable@ == errs.take(i).filter(|e: ConsistencyError| !spec_fixable(e.sub_type)),
        decreases remaining@.len(),
    {
        let e = remaining.remove(0);
        proof {
            assert(e == errs[i]);
            assert(remaining@ =~= errs.skip(i + 1));
        }
        let fixable = match &e.sub_type {
            InfraErrorType::InvalidSwitchPorts => true,
            InfraErrorType::InvalidReference { reference } => reference.obj_type
                == ObjectType::TrackSection,
            _ => false,
        };
        proof {
            assert(fixable == spec_fixable(errs[i].sub_type));
        }
        if fixable {
            found = true;
        } else {
            unfixable.push(e);
        }
        proof {
            let t1 = errs.take(i + 1);
            assert(t1.drop_last() =~= errs.take(i));
            assert(t1.last() == errs[i]);
            reveal_with_fuel(Seq::filter, 2);
            assert(t1.filter(|e: ConsistencyError| !spec_fixable(e.sub_type)) == (if !spec_fixable(
                errs[i].sub_type,
            ) {
                errs.take(i).filter(|e: ConsistencyError| !spec_fixable(e.sub_type)).push(errs[i])
            } else {
                errs.take(i).filter(|e: ConsistencyError| !spec_fixable(e.sub_type))
            }));
            i = i + 1;
        }
    }
    proof {
        assert(errs.take(errs.len() as int) =~= errs);
    }
    let mut fixes: Vec<(ObjectRef, Operation)> = Vec::new();
    if found {
        let target = ObjectRef::new(object.obj_type, object.obj_id.clone());
        let proposal = ObjectRef::new(object.obj_type, object.obj_id.clone());
        fixes.push((target, Operation::Delete(proposal)));
    }
    (fixes, unfixable)
}

/// Proposes corrective operations for one switch.
pub fn fix_switch(switch: &SwitchCache, errors: Vec<ConsistencyError>) -> (r: (
    Vec<(ObjectRef, Operation)>,
    Vec<ConsistencyError>,
))
    ensures
        (exists|j: int| 0 <= j < errors@.len() && spec_fixable(#[trigger] errors@[j].sub_type))
            ==> (r.0@.len() == 1 && r.0@[0].0@ == (ObjectType::Switch, switch.obj_id@)
            && (r.0@[0].1 matches Operation::Delete(d) && d@ == (
            ObjectType::Switch,
            switch.obj_id@,
        ))),
        (forall|j: int|
            0 <= j < errors@.len() ==> !spec_fixable(#[trigger] errors@[j].sub_type)) ==> r.0@.len()
            == 0,
        r.1@ == errors@.filter(|e: ConsistencyError| !spec_fixable(e.sub_type)),
{
    let object = switch.get_ref();
    fix_object(&object, errors)
}

/// Aborts a fix pass whose reported errors were not all recognized.
pub fn require_all_fixable(unfixable: &Vec<ConsistencyError>) -> (r: Result<(), InfraError>)
    ensures
        match r {
            Ok(()) => unfixable@.len() == 0,
            Err(e) => e is UnfixableError && unfixable@.len() > 0,
        },
{
    if unfixable.len() == 0 {
        Ok(())
    } else {
        Err(InfraError::UnfixableError)
    }
}

} // verus!
