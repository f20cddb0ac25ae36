use editoast::errors::InfraError;
use editoast::infra::{Infra, InfraLayers, INFRA_VERSION};
use editoast::operation::Operation;
use editoast::railjson::{RailJson, RAILJSON_VERSION};
use editoast::schema::{RailjsonObject, TrackSection};
use editoast::store::ObjectStore;

fn empty_railjson(version: &str) -> RailJson {
    RailJson {
        version: version.to_string(),
        operational_points: vec![],
        routes: vec![],
        extended_switch_types: vec![],
        switches: vec![],
        track_sections: vec![],
        speed_sections: vec![],
        neutral_sections: vec![],
        electrifications: vec![],
        signals: vec![],
        buffer_stops: vec![],
        detectors: vec![],
    }
}

#[test]
fn fresh_infra_is_stale_until_refreshed() {
    let mut infra = Infra::new(1, "demo".to_string());
    assert_eq!(infra.get_id(), 1);
    assert_eq!(infra.version, INFRA_VERSION);
    assert!(infra.generated_version.is_none());

    let mut layers = InfraLayers::new();
    let store = ObjectStore::new();
    let refreshed = infra.refresh(&mut layers, &store, false);
    assert!(refreshed);
    assert_eq!(infra.generated_version, Some(infra.version));
}

#[test]
fn refresh_without_force_is_a_no_op_when_fresh() {
    let mut infra = Infra::new(1, "demo".to_string());
    let mut layers = InfraLayers::new();
    let store = ObjectStore::new();
    assert!(infra.refresh(&mut layers, &store, false));

    // Fresh now: nothing is refreshed, nothing changes.
    let refreshed = infra.refresh(&mut layers, &store, false);
    assert!(!refreshed);
    assert_eq!(infra.generated_version, Some(infra.version));

    // Forced: always regenerates.
    let refreshed = infra.refresh(&mut layers, &store, true);
    assert!(refreshed);
}

#[test]
fn bump_version_makes_the_infra_stale_again() {
    let mut infra = Infra::new(7, "demo".to_string());
    let mut layers = InfraLayers::new();
    let store = ObjectStore::new();
    assert!(infra.refresh(&mut layers, &store, false));
    infra.bump_version();
    assert_eq!(infra.version, INFRA_VERSION + 1);
    assert!(infra.generated_version != Some(infra.version));
    assert!(infra.refresh(&mut layers, &store, false));
    assert_eq!(infra.generated_version, Some(infra.version));
}

#[test]
fn failed_generation_leaves_the_generated_version_unchanged() {
    let mut infra = Infra::new(1, "demo".to_string());
    let r = infra.record_generation_result(false);
    assert!(matches!(r, Err(InfraError::DependencyGenerationFailure)));
    assert!(infra.generated_version.is_none());

    let r = infra.record_generation_result(true);
    assert!(matches!(r, Ok(true)));
    assert_eq!(infra.generated_version, Some(infra.version));
}

#[test]
fn clear_unsets_the_generated_version_and_empties_the_layers() {
    let mut infra = Infra::new(1, "demo".to_string());
    let mut layers = InfraLayers::new();
    let mut store = ObjectStore::new();
    store
        .apply_operation(Operation::Create(RailjsonObject::TrackSection {
            railjson: TrackSection { id: "t1".to_string(), length: 10 },
        }))
        .unwrap();
    assert!(infra.refresh(&mut layers, &store, false));
    assert!(infra.clear(&mut layers));
    assert!(infra.generated_version.is_none());
    assert_eq!(layers.speed_sections.table.row_count(), 0);
    assert_eq!(layers.switches.table.row_count(), 0);
}

#[test]
fn persist_rejects_a_wrong_format_version() {
    let infra = Infra::new(1, "demo".to_string());
    let r = infra.persist(empty_railjson("2.0.0"));
    match r {
        Err(InfraError::VersionConflict(v)) => assert_eq!(v, "2.0.0"),
        _ => panic!("expected a version conflict"),
    }
}

#[test]
fn persist_imports_every_object() {
    let infra = Infra::new(1, "demo".to_string());
    let mut railjson = empty_railjson(RAILJSON_VERSION);
    railjson.track_sections.push(TrackSection { id: "t1".to_string(), length: 100 });
    railjson.track_sections.push(TrackSection { id: "t2".to_string(), length: 200 });
    let (infra, store) = infra.persist(railjson).unwrap();
    assert_eq!(infra.id, 1);
    assert!(store.get(editoast::schema::ObjectType::TrackSection, &"t1".to_string()).is_some());
    assert!(store.get(editoast::schema::ObjectType::TrackSection, &"t2".to_string()).is_some());
    assert!(store.get(editoast::schema::ObjectType::TrackSection, &"t3".to_string()).is_none());
}

#[test]
fn persist_rejects_duplicate_object_ids() {
    let infra = Infra::new(1, "demo".to_string());
    let mut railjson = empty_railjson(RAILJSON_VERSION);
    railjson.track_sections.push(TrackSection { id: "t1".to_string(), length: 100 });
    railjson.track_sections.push(TrackSection { id: "t1".to_string(), length: 200 });
    let r = infra.persist(railjson);
    assert!(matches!(r, Err(InfraError::InvariantViolation)));
}

#[test]
fn clone_copies_versions_and_derives_the_name() {
    let mut source = Infra::new(1, "demo".to_string());
    source.bump_version();
    let copy = Infra::clone(&source, 2, None);
    assert_eq!(copy.id, 2);
    assert_eq!(copy.name, "demo (copy)");
    assert_eq!(copy.version, source.version);
    assert_eq!(copy.generated_version, source.generated_version);
    assert_eq!(copy.locked, source.locked);
    assert_eq!(copy.owner, 0);

    let named = Infra::clone(&source, 3, Some("fresh".to_string()));
    assert_eq!(named.name, "fresh");
}
