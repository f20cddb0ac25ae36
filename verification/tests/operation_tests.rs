use editoast::geo_json::GeoJsonType;
use editoast::infra_cache::InfraCache;
use editoast::operation::{CreateOperation, UpdateLists};
use editoast::schema::{
    ApplicableDirections, ApplicableDirectionsTrackRange, ObjectType, RailjsonObject, Signal,
    SpeedSection, SpeedSectionExtensions, TrackSection,
};

fn create_track(id: &str) -> CreateOperation {
    CreateOperation::TrackSection {
        railjson: TrackSection { id: id.to_string(), length: 100 },
    }
}

fn sorted(v: &Vec<String>) -> Vec<String> {
    let mut v = v.clone();
    v.sort();
    v
}

#[test]
fn create_operation_reports_kind_and_id() {
    let op = create_track("t1");
    assert_eq!(op.get_obj_type(), ObjectType::TrackSection);
    assert_eq!(op.get_obj_id(), "t1");
}

#[test]
fn get_updated_objects_records_the_track_and_its_dependents() {
    let mut cache = InfraCache::new();
    cache
        .apply_create(&RailjsonObject::Signal {
            railjson: Signal { id: "sig1".to_string(), track: "t1".to_string(), position: 0 },
        })
        .unwrap();
    cache
        .apply_create(&RailjsonObject::SpeedSection {
            railjson: SpeedSection {
                id: "ss1".to_string(),
                speed_limit: None,
                speed_limit_by_tag: vec![],
                track_ranges: vec![ApplicableDirectionsTrackRange {
                    track: "t1".to_string(),
                    begin: 0,
                    end: 5,
                    applicable_directions: ApplicableDirections::Both,
                }],
                on_routes: None,
                extensions: SpeedSectionExtensions { psl_sncf: None },
            },
        })
        .unwrap();

    let mut lists = UpdateLists::new();
    let op = create_track("t1");
    op.get_updated_objects(&mut lists, &cache);

    assert_eq!(sorted(lists.get_ids(ObjectType::TrackSection)), vec!["t1".to_string()]);
    assert_eq!(sorted(lists.get_ids(ObjectType::Signal)), vec!["sig1".to_string()]);
    assert_eq!(sorted(lists.get_ids(ObjectType::SpeedSection)), vec!["ss1".to_string()]);
    assert!(lists.get_ids(ObjectType::Route).is_empty());
}

#[test]
fn update_lists_deduplicate_within_a_kind() {
    let cache = InfraCache::new();
    let mut lists = UpdateLists::new();
    let op = create_track("t1");
    op.get_updated_objects(&mut lists, &cache);
    op.get_updated_objects(&mut lists, &cache);
    assert_eq!(lists.get_ids(ObjectType::TrackSection).len(), 1);
}

#[test]
fn geo_json_kinds_map_to_tile_geometry_kinds() {
    assert_eq!(GeoJsonType::Point.get_geom_type(), mvt::GeomType::Point);
    assert_eq!(GeoJsonType::MultiPoint.get_geom_type(), mvt::GeomType::Point);
    assert_eq!(GeoJsonType::LineString.get_geom_type(), mvt::GeomType::Linestring);
    assert_eq!(
        GeoJsonType::MultiLineString.get_geom_type(),
        mvt::GeomType::Linestring
    );
}

#[test]
fn getters_report_ids_and_referenced_tracks() {
    let e = editoast::schema::Electrification {
        id: "el1".to_string(),
        voltage: "25000V".to_string(),
        track_ranges: vec![
            ApplicableDirectionsTrackRange {
                track: "t1".to_string(),
                begin: 0,
                end: 5,
                applicable_directions: ApplicableDirections::StartToStop,
            },
            ApplicableDirectionsTrackRange {
                track: "t2".to_string(),
                begin: 0,
                end: 5,
                applicable_directions: ApplicableDirections::StopToStart,
            },
        ],
    };
    assert_eq!(e.get_type(), ObjectType::Electrification);
    assert_eq!(e.get_id(), "el1");
    assert_eq!(e.get_track_referenced_id(), vec!["t1".to_string(), "t2".to_string()]);

    let ss = SpeedSection {
        id: "ss1".to_string(),
        speed_limit: Some(50),
        speed_limit_by_tag: vec![("tag".to_string(), 40)],
        track_ranges: vec![],
        on_routes: None,
        extensions: SpeedSectionExtensions::default(),
    };
    assert_eq!(ss.get_type(), ObjectType::SpeedSection);
    assert_eq!(ss.get_id(), "ss1");
    assert!(ss.get_track_referenced_id().is_empty());
}
