//! A full infrastructure payload, as imported in one piece.

use vstd::prelude::*;
use crate::operation::Operation;
use crate::schema::{
    BufferStop, Detector, Electrification, NeutralSection, OperationalPoint, RailjsonObject,
    Route, Signal, SpeedSection, Switch, SwitchType, TrackSection,
};

verus! {

/// The canonical format version an imported payload must declare.
pub const RAILJSON_VERSION: &'static str = "3.4.11";

/// One whole infrastructure: every object of every kind, plus the format
/// version the payload declares.
pub struct RailJson {
    pub version: String,
    pub operational_points: Vec<OperationalPoint>,
    pub routes: Vec<Route>,
    pub extended_switch_types: Vec<SwitchType>,
    pub switches: Vec<Switch>,
    pub track_sections: Vec<TrackSection>,
    pub speed_sections: Vec<SpeedSection>,
    pub neutral_sections: Vec<NeutralSection>,
    pub electrifications: Vec<Electrification>,
    pub signals: Vec<Signal>,
    pub buffer_stops: Vec<BufferStop>,
    pub detectors: Vec<Detector>,
}

/// A payload type that wraps into one object variant.
pub trait IntoRailjson: Sized {
    spec fn spec_object(self) -> RailjsonObject;

    fn into_object(self) -> (r: RailjsonObject)
        ensures
            r == self.spec_object(),
    ;
}

impl IntoRailjson for TrackSection {
    open spec fn spec_object(self) -> RailjsonObject {
        RailjsonObject::TrackSection { railjson: self }
    }

    fn into_object(self) -> (r: RailjsonObject) {
        RailjsonObject::TrackSection { railjson: self }
    }
}

impl IntoRailjson for BufferStop {
    open spec fn spec_object(self) -> RailjsonObject {
        RailjsonObject::BufferStop { railjson: self }
    }

    fn into_object(self) -> (r: RailjsonObject) {
        RailjsonObject::BufferStop { railjson: self }
    }
}

impl IntoRailjson for Electrification {
    open spec fn spec_object(self) -> RailjsonObject {
        RailjsonObject::Electrification { railjson: self }
    }

    fn into_object(self) -> (r: RailjsonObject) {
        RailjsonObject::Electrification { railjson: self }
    }
}

impl IntoRailjson for Detector {
    open spec fn spec_object(self) -> RailjsonObject {
        RailjsonObject::Detector { railjson: self }
    }

    fn into_object(self) -> (r: RailjsonObject) {
        RailjsonObject::Detector { railjson: self }
    }
}

impl IntoRailjson for OperationalPoint {
    open spec fn spec_object(self) -> RailjsonObject {
        RailjsonObject::OperationalPoint { railjson: self }
    }

    fn into_object(self) -> (r: RailjsonObject) {
        RailjsonObject::OperationalPoint { railjson: self }
    }
}

impl IntoRailjson for Route {
    open spec fn spec_object(self) -> RailjsonObject {
        RailjsonObject::Route { railjson: self }
    }

    fn into_object(self) -> (r: RailjsonObject) {
        RailjsonObject::Route { railjson: self }
    }
}

impl IntoRailjson for Signal {
    open spec fn spec_object(self) -> RailjsonObject {
        RailjsonObject::Signal { railjson: self }
    }

    fn into_object(self) -> (r: RailjsonObject) {
        RailjsonObject::Signal { railjson: self }
    }
}

impl IntoRailjson for Switch {
    open spec fn spec_object(self) -> RailjsonObject {
        RailjsonObject::Switch { railjson: self }
    }

    fn into_object(self) -> (r: RailjsonObject) {
        RailjsonObject::Switch { railjson: self }
    }
}

impl IntoRailjson for SpeedSection {
    open spec fn spec_object(self) -> RailjsonObject {
        RailjsonObject::SpeedSection { railjson: self }
    }

    fn into_object(self) -> (r: RailjsonObject) {
        RailjsonObject::SpeedSection { railjson: self }
    }
}

impl IntoRailjson for SwitchType {
    open spec fn spec_object(self) -> RailjsonObject {
        RailjsonObject::SwitchType { railjson: self }
    }

    fn into_object(self) -> (r: RailjsonObject) {
        RailjsonObject::SwitchType { railjson: self }
    }
}

impl IntoRailjson for NeutralSection {
    open spec fn spec_object(self) -> RailjsonObject {
        RailjsonObject::NeutralSection { railjson: self }
    }

    fn into_object(self) -> (r: RailjsonObject) {
        RailjsonObject::NeutralSection { railjson: self }
    }
}

/// The create operations a list of payloads contributes, in order.
pub open spec fn creates_of<T: IntoRailjson>(v: Seq<T>) -> Seq<Operation> {
    v.map_values(|x: T| Operation::Create(x.spec_object()))
}

/// Appends a create operation for every payload, in order.
fn drain_objects<T: IntoRailjson>(out: &mut Vec<Operation>, v: Vec<T>)
    ensures
        final(out)@ == old(out)@ + creates_of(v@),
{
    let ghost v0 = v@;
    let ghost base = out@;
    let mut v = v;
    let ghost mut i: int = 0;
    while v.len() > 0
        invariant
            0 <= i <= v0.len(),
            v@ == v0.skip(i),
            out@.len() == base.len() + i,
            forall|j: int| 0 <= j < base.len() ==> out@[j] == base[j],
            forall|j: int|
                0 <= j < i ==> out@[base.len() + j] == Operation::Create(v0[j].spec_object()),
        decreases v@.len(),
    {
        let x = v.remove(0);
        proof {
            assert(x == v0[i]);
            assert(v@ =~= v0.skip(i + 1));
        }
        out.push(Operation::Create(x.into_object()));
        proof {
            i = i + 1;
        }
    }
    proof {
        assert(out@ =~= base + creates_of(v0));
    }
}

/// The operation batch an imported payload stands for: a create of every
/// object, tracks first.
pub open spec fn spec_operations(rj: RailJson) -> Seq<Operation> {
    creates_of(rj.track_sections@) + creates_of(rj.buffer_stops@) + creates_of(
        rj.electrifications@,
    ) + creates_of(rj.detectors@) + creates_of(rj.operational_points@) + creates_of(rj.routes@)
        + creates_of(rj.signals@) + creates_of(rj.switches@) + creates_of(rj.speed_sections@)
        + creates_of(rj.extended_switch_types@) + creates_of(rj.neutral_sections@)
}

impl RailJson {
    /// The batch of create operations this payload stands for.
    pub fn into_operations(self) -> (r: Vec<Operation>)
        ensures
            r@ == spec_operations(self),
    {
        let ghost rj = self;
        let mut out: Vec<Operation> = Vec::new();
        drain_objects(&mut out, self.track_sections);
        drain_objects(&mut out, self.buffer_stops);
        drain_objects(&mut out, self.electrifications);
        drain_objects(&mut out, self.detectors);
        drain_objects(&mut out, self.operational_points);
        drain_objects(&mut out, self.routes);
        drain_objects(&mut out, self.signals);
        drain_objects(&mut out, self.switches);
        drain_objects(&mut out, self.speed_sections);
        drain_objects(&mut out, self.extended_switch_types);
        drain_objects(&mut out, self.neutral_sections);
        proof {
            assert(out@ =~= spec_operations(rj));
        }
        out
    }
}

} // verus!
