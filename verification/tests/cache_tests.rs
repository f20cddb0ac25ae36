use editoast::errors::InfraError;
use editoast::infra_cache::{InfraCache, ObjRefLink};
use editoast::operation::{Operation, UpdateOperation};
use editoast::schema::{
    ApplicableDirections, ApplicableDirectionsTrackRange, ObjectRef, ObjectType, RailjsonObject,
    Sign, Signal, SpeedSection, SpeedSectionExtensions, SpeedSectionPslSncfExtension,
    TrackSection,
};

fn range(track: &str) -> ApplicableDirectionsTrackRange {
    ApplicableDirectionsTrackRange {
        track: track.to_string(),
        begin: 0,
        end: 1000,
        applicable_directions: ApplicableDirections::Both,
    }
}

fn signal(id: &str, track: &str) -> RailjsonObject {
    RailjsonObject::Signal {
        railjson: Signal { id: id.to_string(), track: track.to_string(), position: 0 },
    }
}

fn speed_section(id: &str, tracks: &[&str]) -> RailjsonObject {
    RailjsonObject::SpeedSection {
        railjson: SpeedSection {
            id: id.to_string(),
            speed_limit: Some(22),
            speed_limit_by_tag: vec![],
            track_ranges: tracks.iter().map(|t| range(t)).collect(),
            on_routes: None,
            extensions: SpeedSectionExtensions { psl_sncf: None },
        },
    }
}

fn track(id: &str) -> RailjsonObject {
    RailjsonObject::TrackSection { railjson: TrackSection { id: id.to_string(), length: 5000 } }
}

fn ids_of(refs: &[ObjectRef]) -> Vec<String> {
    let mut v: Vec<String> = refs.iter().map(|r| r.obj_id.clone()).collect();
    v.sort();
    v
}

#[test]
fn create_records_forward_and_reverse_entries() {
    let mut cache = InfraCache::new();
    cache.apply_create(&signal("sig1", "t1")).unwrap();
    cache.apply_create(&speed_section("ss1", &["t1", "t2"])).unwrap();

    let sig_refs = cache.get_track_refs_type(&"t1".to_string(), ObjectType::Signal);
    assert_eq!(ids_of(&sig_refs), vec!["sig1".to_string()]);
    let ss_refs = cache.get_track_refs_type(&"t1".to_string(), ObjectType::SpeedSection);
    assert_eq!(ids_of(&ss_refs), vec!["ss1".to_string()]);
    let ss_refs2 = cache.get_track_refs_type(&"t2".to_string(), ObjectType::SpeedSection);
    assert_eq!(ids_of(&ss_refs2), vec!["ss1".to_string()]);
}

#[test]
fn unknown_track_yields_empty_list_not_an_error() {
    let cache = InfraCache::new();
    let refs = cache.get_track_refs_type(&"nowhere".to_string(), ObjectType::Signal);
    assert!(refs.is_empty());
}

#[test]
fn duplicate_create_is_an_invariant_violation() {
    let mut cache = InfraCache::new();
    cache.apply_create(&signal("sig1", "t1")).unwrap();
    let r = cache.apply_create(&signal("sig1", "t9"));
    assert!(matches!(r, Err(InfraError::InvariantViolation)));
    // The cache is unchanged by the failed create.
    let refs = cache.get_track_refs_type(&"t1".to_string(), ObjectType::Signal);
    assert_eq!(ids_of(&refs), vec!["sig1".to_string()]);
    assert!(cache.get_track_refs_type(&"t9".to_string(), ObjectType::Signal).is_empty());
}

#[test]
fn delete_of_unknown_id_is_an_invariant_violation() {
    let mut cache = InfraCache::new();
    let r = cache.apply_delete(&ObjectRef::new(ObjectType::Signal, "ghost".to_string()));
    assert!(matches!(r, Err(InfraError::InvariantViolation)));
    let r = cache.apply_delete(&ObjectRef::new(ObjectType::SpeedSection, "ghost".to_string()));
    assert!(matches!(r, Err(InfraError::InvariantViolation)));
}

#[test]
fn operations_on_non_participating_kinds_are_no_ops() {
    let mut cache = InfraCache::new();
    cache.apply_create(&track("t1")).unwrap();
    cache.apply_delete(&ObjectRef::new(ObjectType::Route, "r1".to_string())).unwrap();
    assert!(cache.get_track_refs_type(&"t1".to_string(), ObjectType::TrackSection).is_empty());
}

#[test]
fn create_then_delete_restores_the_cache() {
    let mut cache = InfraCache::new();
    cache.apply_create(&signal("sig1", "t1")).unwrap();

    cache.apply_create(&speed_section("ss1", &["t1", "t2"])).unwrap();
    cache
        .apply_delete(&ObjectRef::new(ObjectType::SpeedSection, "ss1".to_string()))
        .unwrap();

    // Exactly the prior state is observable again.
    let sig_refs = cache.get_track_refs_type(&"t1".to_string(), ObjectType::Signal);
    assert_eq!(ids_of(&sig_refs), vec!["sig1".to_string()]);
    assert!(cache.get_track_refs_type(&"t1".to_string(), ObjectType::SpeedSection).is_empty());
    assert!(cache.get_track_refs_type(&"t2".to_string(), ObjectType::SpeedSection).is_empty());
    // Deleting again fails: the forward entry is gone.
    let r = cache.apply_delete(&ObjectRef::new(ObjectType::SpeedSection, "ss1".to_string()));
    assert!(matches!(r, Err(InfraError::InvariantViolation)));
}

#[test]
fn update_equals_delete_then_create() {
    let mut updated = InfraCache::new();
    updated.apply_create(&speed_section("ss1", &["t1"])).unwrap();
    updated
        .apply(&Operation::Update(UpdateOperation {
            obj_type: ObjectType::SpeedSection,
            obj_id: "ss1".to_string(),
            railjson: speed_section("ss1", &["t2", "t3"]),
        }))
        .unwrap();

    let mut recreated = InfraCache::new();
    recreated.apply_create(&speed_section("ss1", &["t1"])).unwrap();
    recreated
        .apply_delete(&ObjectRef::new(ObjectType::SpeedSection, "ss1".to_string()))
        .unwrap();
    recreated.apply_create(&speed_section("ss1", &["t2", "t3"])).unwrap();

    for t in ["t1", "t2", "t3"] {
        let a = updated.get_track_refs_type(&t.to_string(), ObjectType::SpeedSection);
        let b = recreated.get_track_refs_type(&t.to_string(), ObjectType::SpeedSection);
        assert_eq!(ids_of(&a), ids_of(&b));
    }
    assert!(updated
        .get_track_refs_type(&"t1".to_string(), ObjectType::SpeedSection)
        .is_empty());
    assert_eq!(
        ids_of(&updated.get_track_refs_type(&"t2".to_string(), ObjectType::SpeedSection)),
        vec!["ss1".to_string()]
    );
}

#[test]
fn update_of_unknown_id_is_an_invariant_violation() {
    let mut cache = InfraCache::new();
    let r = cache.apply(&Operation::Update(UpdateOperation {
        obj_type: ObjectType::SpeedSection,
        obj_id: "ss1".to_string(),
        railjson: speed_section("ss1", &["t1"]),
    }));
    assert!(matches!(r, Err(InfraError::InvariantViolation)));
}

#[test]
fn reverse_index_matches_forward_entries_by_kind() {
    // Forward/reverse consistency, observed per track id and kind.
    let mut cache = InfraCache::new();
    cache.apply_create(&signal("sig1", "t1")).unwrap();
    cache.apply_create(&signal("sig2", "t2")).unwrap();
    cache.apply_create(&speed_section("ss1", &["t1", "t2"])).unwrap();
    cache.apply_create(&speed_section("ss2", &["t2"])).unwrap();
    cache.apply_delete(&ObjectRef::new(ObjectType::Signal, "sig2".to_string())).unwrap();

    assert_eq!(
        ids_of(&cache.get_track_refs_type(&"t1".to_string(), ObjectType::Signal)),
        vec!["sig1".to_string()]
    );
    assert!(cache.get_track_refs_type(&"t2".to_string(), ObjectType::Signal).is_empty());
    assert_eq!(
        ids_of(&cache.get_track_refs_type(&"t2".to_string(), ObjectType::SpeedSection)),
        vec!["ss1".to_string(), "ss2".to_string()]
    );
    let t1_speed = cache.get_track_refs_type(&"t1".to_string(), ObjectType::SpeedSection);
    assert_eq!(ids_of(&t1_speed), vec!["ss1".to_string()]);
    for r in &t1_speed {
        assert_eq!(r.obj_type, ObjectType::SpeedSection);
    }
}

#[test]
fn speed_section_with_extension_references_sign_tracks() {
    let obj = RailjsonObject::SpeedSection {
        railjson: SpeedSection {
            id: "ss1".to_string(),
            speed_limit: None,
            speed_limit_by_tag: vec![],
            track_ranges: vec![range("t1")],
            on_routes: None,
            extensions: SpeedSectionExtensions {
                psl_sncf: Some(SpeedSectionPslSncfExtension {
                    announcement: vec![Sign { track: "t2".to_string(), position: 10 }],
                    z: Sign { track: "t3".to_string(), position: 20 },
                    r: vec![],
                }),
            },
        },
    };
    let mut cache = InfraCache::new();
    cache.apply_create(&obj).unwrap();
    for t in ["t1", "t2", "t3"] {
        assert_eq!(
            ids_of(&cache.get_track_refs_type(&t.to_string(), ObjectType::SpeedSection)),
            vec!["ss1".to_string()]
        );
    }
}

#[test]
fn init_builds_both_indices_from_links() {
    let link = |obj: &str, track: &str| ObjRefLink {
        obj_id: obj.to_string(),
        ref_id: track.to_string(),
    };
    let signal_links = vec![link("sig1", "t1"), link("sig2", "t1")];
    let speed_links = vec![link("ss1", "t1"), link("ss1", "t2"), link("ss2", "t2")];
    let cache = InfraCache::init(&signal_links, &speed_links);

    assert_eq!(
        ids_of(&cache.get_track_refs_type(&"t1".to_string(), ObjectType::Signal)),
        vec!["sig1".to_string(), "sig2".to_string()]
    );
    assert_eq!(
        ids_of(&cache.get_track_refs_type(&"t1".to_string(), ObjectType::SpeedSection)),
        vec!["ss1".to_string()]
    );
    assert_eq!(
        ids_of(&cache.get_track_refs_type(&"t2".to_string(), ObjectType::SpeedSection)),
        vec!["ss1".to_string(), "ss2".to_string()]
    );
}

#[test]
fn init_result_accepts_further_operations() {
    let signal_links = vec![ObjRefLink { obj_id: "sig1".to_string(), ref_id: "t1".to_string() }];
    let mut cache = InfraCache::init(&signal_links, &vec![]);
    // The signal is known: a duplicate create fails, a delete succeeds.
    assert!(matches!(
        cache.apply_create(&signal("sig1", "t1")),
        Err(InfraError::InvariantViolation)
    ));
    cache.apply_delete(&ObjectRef::new(ObjectType::Signal, "sig1".to_string())).unwrap();
    assert!(cache.get_track_refs_type(&"t1".to_string(), ObjectType::Signal).is_empty());
}
