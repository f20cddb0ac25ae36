//! The railway object model: object kinds, object references and payloads.
//!
//! Only the parts of each payload that the dependency logic reads are modelled
//! here; positions and lengths are in integral millimetres. The kinds that
//! carry track references for the dependency cache are `Signal` and
//! `SpeedSection`.

use vstd::prelude::*;

verus! {

/// The closed set of railway object kinds.
#[derive(Clone, Copy, Debug, PartialEq, Eq, Structural, Hash)]
pub enum ObjectType {
    TrackSection,
    Signal,
    SpeedSection,
    Switch,
    SwitchType,
    Route,
    BufferStop,
    Detector,
    OperationalPoint,
    NeutralSection,
    Electrification,
}

/// A reference to one object: its kind together with its textual identifier.
#[derive(Clone, Debug)]
pub struct ObjectRef {
    pub obj_type: ObjectType,
    pub obj_id: String,
}

impl View for ObjectRef {
    type V = (ObjectType, Seq<char>);

    open spec fn view(&self) -> (ObjectType, Seq<char>) {
        (self.obj_type, self.obj_id@)
    }
}

impl DeepView for ObjectRef {
    type V = (ObjectType, Seq<char>);

    open spec fn deep_view(&self) -> (ObjectType, Seq<char>) {
        self@
    }
}

impl ObjectRef {
    pub fn new(obj_type: ObjectType, obj_id: String) -> (r: ObjectRef)
        ensures
            r@ == (obj_type, obj_id@),
    {
        ObjectRef { obj_type, obj_id }
    }
}

impl PartialEq for ObjectRef {
    fn eq(&self, other: &ObjectRef) -> (r: bool) {
        self.obj_type == other.obj_type && self.obj_id == other.obj_id
    }
}

impl vstd::std_specs::cmp::PartialEqSpecImpl for ObjectRef {
    open spec fn obeys_eq_spec() -> bool {
        true
    }

    open spec fn eq_spec(&self, other: &ObjectRef) -> bool {
        self@ == other@
    }
}

/// The directions of travel a track range applies to.
#[derive(Clone, Copy, Debug, PartialEq, Eq, Structural)]
pub enum ApplicableDirections {
    StartToStop,
    StopToStart,
    Both,
}

/// A span of one track section together with the directions it applies to.
/// Positions are millimetres from the start of the track.
#[derive(Clone, Debug)]
pub struct ApplicableDirectionsTrackRange {
    pub track: String,
    pub begin: u64,
    pub end: u64,
    pub applicable_directions: ApplicableDirections,
}

/// A wayside sign attached to a track, carried by speed-section extensions.
#[derive(Clone, Debug)]
pub struct Sign {
    pub track: String,
    pub position: u64,
}

/// A stretch of rail; the object every other kind may reference.
#[derive(Clone, Debug)]
pub struct TrackSection {
    pub id: String,
    pub length: u64,
}

/// A signal standing on one track section.
#[derive(Clone, Debug)]
pub struct Signal {
    pub id: String,
    pub track: String,
    pub position: u64,
}

/// Permanent speed-limit signage attached to a speed section.
#[derive(Clone, Debug)]
pub struct SpeedSectionPslSncfExtension {
    pub announcement: Vec<Sign>,
    pub z: Sign,
    pub r: Vec<Sign>,
}

/// Optional extensions of a speed section.
#[derive(Clone, Debug)]
pub struct SpeedSectionExtensions {
    pub psl_sncf: Option<SpeedSectionPslSncfExtension>,
}

impl Default for SpeedSectionExtensions {
    fn default() -> (r: Self)
        ensures
            r.psl_sncf is None,
    {
        SpeedSectionExtensions { psl_sncf: None }
    }
}

/// A speed limit, in millimetres per second, applied over track ranges.
#[derive(Clone, Debug)]
pub struct SpeedSection {
    pub id: String,
    pub speed_limit: Option<u64>,
    pub speed_limit_by_tag: Vec<(String, u64)>,
    pub track_ranges: Vec<ApplicableDirectionsTrackRange>,
    pub on_routes: Option<Vec<String>>,
    pub extensions: SpeedSectionExtensions,
}

impl SpeedSection {
    /// The track ids this speed section references, in order: its ranges,
    /// then the announcement, repeater and origin signs of its extension.
    pub open spec fn spec_track_refs(&self) -> Seq<Seq<char>> {
        self.track_ranges@.map_values(|tr: ApplicableDirectionsTrackRange| tr.track@)
            + match self.extensions.psl_sncf {
                Some(psl) => psl.announcement@.map_values(|s: Sign| s.track@)
                    + psl.r@.map_values(|s: Sign| s.track@) + seq![psl.z.track@],
                None => Seq::<Seq<char>>::empty(),
            }
    }

    pub fn get_type(&self) -> (r: ObjectType)
        ensures
            r == ObjectType::SpeedSection,
    {
        ObjectType::SpeedSection
    }

    pub fn get_id(&self) -> (r: &String)
        ensures
            r@ == self.id@,
    {
        &self.id
    }

    /// All track ids referenced by this section, in order.
    pub fn get_track_referenced_id(&self) -> (r: Vec<String>)
        ensures
            r.deep_view() == self.spec_track_refs(),
    {
        let mut res: Vec<String> = Vec::new();
        push_range_tracks(&mut res, &self.track_ranges);
        if let Some(psl) = &self.extensions.psl_sncf {
            push_sign_tracks(&mut res, &psl.announcement);
            push_sign_tracks(&mut res, &psl.r);
            let ghost before_z = res.deep_view();
            res.push(psl.z.track.clone());
            proof {
                assert(res.deep_view() =~= before_z.push(psl.z.track@));
                assert(res.deep_view() =~= self.spec_track_refs());
            }
        } else {
            proof {
                assert(res.deep_view() =~= self.spec_track_refs());
            }
        }
        res
    }
}

/// Appends the track id of every range to `res`, in order.
fn push_range_tracks(res: &mut Vec<String>, ranges: &Vec<ApplicableDirectionsTrackRange>)
    ensures
        final(res).deep_view() == old(res).deep_view() + ranges@.map_values(
            |tr: ApplicableDirectionsTrackRange| tr.track@,
        ),
{
    let ghost base = res.deep_view();
    let mut i: usize = 0;
    while i < ranges.len()
        invariant
            i <= ranges.len(),
            res.deep_view().len() == base.len() + i,
            forall|j: int| 0 <= j < base.len() ==> res.deep_view()[j] == base[j],
            forall|j: int| 0 <= j < i ==> res.deep_view()[base.len() + j] == ranges@[j].track@,
        decreases ranges.len() - i,
    {
        res.push(ranges[i].track.clone());
        i += 1;
    }
    proof {
        assert(res.deep_view() =~= base + ranges@.map_values(
            |tr: ApplicableDirectionsTrackRange| tr.track@,
        ));
    }
}

/// Appends the track id of every sign to `res`, in order.
fn push_sign_tracks(res: &mut Vec<String>, signs: &Vec<Sign>)
    ensures
        final(res).deep_view() == old(res).deep_view() + signs@.map_values(|s: Sign| s.track@),
{
    let ghost base = res.deep_view();
    let mut i: usize = 0;
    while i < signs.len()
        invariant
            i <= signs.len(),
            res.deep_view().len() == base.len() + i,
            forall|j: int| 0 <= j < base.len() ==> res.deep_view()[j] == base[j],
            forall|j: int| 0 <= j < i ==> res.deep_view()[base.len() + j] == signs@[j].track@,
        decreases signs.len() - i,
    {
        res.push(signs[i].track.clone());
        i += 1;
    }
    proof {
        assert(res.deep_view() =~= base + signs@.map_values(|s: Sign| s.track@));
    }
}

/// An electrified area, defined over track ranges.
#[derive(Clone, Debug)]
pub struct Electrification {
    pub id: String,
    pub voltage: String,
    pub track_ranges: Vec<ApplicableDirectionsTrackRange>,
}

impl Electrification {
    pub fn get_type(&self) -> (r: ObjectType)
        ensures
            r == ObjectType::Electrification,
    {
        ObjectType::Electrification
    }

    pub fn get_id(&self) -> (r: &String)
        ensures
            r@ == self.id@,
    {
        &self.id
    }

    /// All track ids referenced by this electrification, in order.
    pub fn get_track_referenced_id(&self) -> (r: Vec<String>)
        ensures
            r.deep_view() == self.track_ranges@.map_values(
                |tr: ApplicableDirectionsTrackRange| tr.track@,
            ),
    {
        let mut res: Vec<String> = Vec::new();
        push_range_tracks(&mut res, &self.track_ranges);
        proof {
            assert(res.deep_view() =~= self.track_ranges@.map_values(
                |tr: ApplicableDirectionsTrackRange| tr.track@,
            ));
        }
        res
    }
}

/// One named end of a track section.
#[derive(Clone, Copy, Debug, PartialEq, Eq, Structural)]
pub enum Endpoint {
    Begin,
    End,
}

/// One end of one track section, as connected to a switch port.
#[derive(Clone, Debug)]
pub struct TrackEndpoint {
    pub endpoint: Endpoint,
    pub track: String,
}

/// A movable connection between track ends, keyed by port name.
#[derive(Clone, Debug)]
pub struct Switch {
    pub id: String,
    pub switch_type: String,
    pub ports: Vec<(String, TrackEndpoint)>,
}

/// The cached projection of a switch, as consumed by the auto-fix rules.
#[derive(Clone, Debug)]
pub struct SwitchCache {
    pub obj_id: String,
    pub switch_type: String,
    pub ports: Vec<(String, TrackEndpoint)>,
}

impl SwitchCache {
    pub fn get_ref(&self) -> (r: ObjectRef)
        ensures
            r@ == (ObjectType::Switch, self.obj_id@),
    {
        ObjectRef::new(ObjectType::Switch, self.obj_id.clone())
    }
}

/// A switch model: the port names a switch of this model offers.
#[derive(Clone, Debug)]
pub struct SwitchType {
    pub id: String,
    pub ports: Vec<String>,
}

/// An itinerary through the network.
#[derive(Clone, Debug)]
pub struct Route {
    pub id: String,
}

/// The end of a line, on one track section.
#[derive(Clone, Debug)]
pub struct BufferStop {
    pub id: String,
    pub track: String,
    pub position: u64,
}

/// A train-detection device on one track section.
#[derive(Clone, Debug)]
pub struct Detector {
    pub id: String,
    pub track: String,
    pub position: u64,
}

/// A named operational location.
#[derive(Clone, Debug)]
pub struct OperationalPoint {
    pub id: String,
}

/// An unelectrified area, defined over track ranges.
#[derive(Clone, Debug)]
pub struct NeutralSection {
    pub id: String,
    pub track_ranges: Vec<ApplicableDirectionsTrackRange>,
}

/// A full object payload: one variant per object kind.
#[derive(Clone, Debug)]
pub enum RailjsonObject {
    TrackSection { railjson: TrackSection },
    Signal { railjson: Signal },
    SpeedSection { railjson: SpeedSection },
    Switch { railjson: Switch },
    SwitchType { railjson: SwitchType },
    Route { railjson: Route },
    BufferStop { railjson: BufferStop },
    Detector { railjson: Detector },
    OperationalPoint { railjson: OperationalPoint },
    NeutralSection { railjson: NeutralSection },
    Electrification { railjson: Electrification },
}

impl RailjsonObject {
    pub open spec fn spec_type(&self) -> ObjectType {
        match self {
            RailjsonObject::TrackSection { .. } => ObjectType::TrackSection,
            RailjsonObject::Signal { .. } => ObjectType::Signal,
            RailjsonObject::SpeedSection { .. } => ObjectType::SpeedSection,
            RailjsonObject::Switch { .. } => ObjectType::Switch,
            RailjsonObject::SwitchType { .. } => ObjectType::SwitchType,
            RailjsonObject::Route { .. } => ObjectType::Route,
            RailjsonObject::BufferStop { .. } => ObjectType::BufferStop,
            RailjsonObject::Detector { .. } => ObjectType::Detector,
            RailjsonObject::OperationalPoint { .. } => ObjectType::OperationalPoint,
            RailjsonObject::NeutralSection { .. } => ObjectType::NeutralSection,
            RailjsonObject::Electrification { .. } => ObjectType::Electrification,
        }
    }

    pub open spec fn spec_id(&self) -> Seq<char> {
        match self {
            RailjsonObject::TrackSection { railjson } => railjson.id@,
            RailjsonObject::Signal { railjson } => railjson.id@,
            RailjsonObject::SpeedSection { railjson } => railjson.id@,
            RailjsonObject::Switch { railjson } => railjson.id@,
            RailjsonObject::SwitchType { railjson } => railjson.id@,
            RailjsonObject::Route { railjson } => railjson.id@,
            RailjsonObject::BufferStop { railjson } => railjson.id@,
            RailjsonObject::Detector { railjson } => railjson.id@,
            RailjsonObject::OperationalPoint { railjson } => railjson.id@,
            RailjsonObject::NeutralSection { railjson } => railjson.id@,
            RailjsonObject::Electrification { railjson } => railjson.id@,
        }
    }

    /// The reference of this object, as a spec value.
    pub open spec fn spec_ref(&self) -> (ObjectType, Seq<char>) {
        (self.spec_type(), self.spec_id())
    }

    /// Whether the dependency cache tracks this kind's track references.
    pub open spec fn spec_participating(&self) -> bool {
        self.spec_type() == ObjectType::Signal || self.spec_type() == ObjectType::SpeedSection
    }

    /// The track ids the dependency cache records for this object, in order.
    /// Empty for kinds the cache does not participate in.
    pub open spec fn spec_cache_tracks(&self) -> Seq<Seq<char>> {
        match self {
            RailjsonObject::Signal { railjson } => seq![railjson.track@],
            RailjsonObject::SpeedSection { railjson } => railjson.spec_track_refs(),
            _ => Seq::<Seq<char>>::empty(),
        }
    }

    pub fn get_type(&self) -> (r: ObjectType)
        ensures
            r == self.spec_type(),
    {
        match self {
            RailjsonObject::TrackSection { .. } => ObjectType::TrackSection,
            RailjsonObject::Signal { .. } => ObjectType::Signal,
            RailjsonObject::SpeedSection { .. } => ObjectType::SpeedSection,
            RailjsonObject::Switch { .. } => ObjectType::Switch,
            RailjsonObject::SwitchType { .. } => ObjectType::SwitchType,
            RailjsonObject::Route { .. } => ObjectType::Route,
            RailjsonObject::BufferStop { .. } => ObjectType::BufferStop,
            RailjsonObject::Detector { .. } => ObjectType::Detector,
            RailjsonObject::OperationalPoint { .. } => ObjectType::OperationalPoint,
            RailjsonObject::NeutralSection { .. } => ObjectType::NeutralSection,
            RailjsonObject::Electrification { .. } => ObjectType::Electrification,
        }
    }

    pub fn get_id(&self) -> (r: &String)
        ensures
            r@ == self.spec_id(),
    {
        match self {
            RailjsonObject::TrackSection { railjson } => &railjson.id,
            RailjsonObject::Signal { railjson } => &railjson.id,
            RailjsonObject::SpeedSection { railjson } => &railjson.id,
            RailjsonObject::Switch { railjson } => &railjson.id,
            RailjsonObject::SwitchType { railjson } => &railjson.id,
            RailjsonObject::Route { railjson } => &railjson.id,
            RailjsonObject::BufferStop { railjson } => &railjson.id,
            RailjsonObject::Detector { railjson } => &railjson.id,
            RailjsonObject::OperationalPoint { railjson } => &railjson.id,
            RailjsonObject::NeutralSection { railjson } => &railjson.id,
            RailjsonObject::Electrification { railjson } => &railjson.id,
        }
    }

    pub fn get_ref(&self) -> (r: ObjectRef)
        ensures
            r@ == self.spec_ref(),
    {
        ObjectRef::new(self.get_type(), self.get_id().clone())
    }

    /// The track ids the dependency cache records for this object, in order.
    pub fn get_cache_tracks(&self) -> (r: Vec<String>)
        ensures
            r.deep_view() == self.spec_cache_tracks(),
    {
        match self {
            RailjsonObject::Signal { railjson } => {
                let mut v: Vec<String> = Vec::new();
                v.push(railjson.track.clone());
                proof {
                    assert(v.deep_view() =~= seq![railjson.track@]);
                }
                v
            },
            RailjsonObject::SpeedSection { railjson } => railjson.get_track_referenced_id(),
            _ => {
                let v: Vec<String> = Vec::new();
                proof {
                    assert(v.deep_view() =~= Seq::<Seq<char>>::empty());
                }
                v
            },
        }
    }
}

} // verus!
