use editoast::auto_fixes::{
    fix_object, fix_switch, new_ref_fix_delete_pair, require_all_fixable, ConsistencyError,
    InfraErrorType,
};
use editoast::errors::InfraError;
use editoast::infra_cache::InfraCache;
use editoast::operation::Operation;
use editoast::schema::{
    ApplicableDirections, ApplicableDirectionsTrackRange, ObjectRef, ObjectType, RailjsonObject,
    SpeedSection, SpeedSectionExtensions, SwitchCache,
};

fn switch_cache(id: &str) -> SwitchCache {
    SwitchCache {
        obj_id: id.to_string(),
        switch_type: "point_switch".to_string(),
        ports: vec![],
    }
}

fn error_on(id: &str, sub_type: InfraErrorType) -> ConsistencyError {
    ConsistencyError { obj_ref: ObjectRef::new(ObjectType::Switch, id.to_string()), sub_type }
}

#[test]
fn dangling_track_reference_maps_to_a_delete_of_the_offender() {
    // A speed section referencing a track section: after the track is
    // deleted alone, the reverse index still reports the dependent, and the
    // reported dangling reference maps to deleting the offending object.
    let mut cache = InfraCache::new();
    cache
        .apply_create(&RailjsonObject::SpeedSection {
            railjson: SpeedSection {
                id: "S1".to_string(),
                speed_limit: None,
                speed_limit_by_tag: vec![],
                track_ranges: vec![ApplicableDirectionsTrackRange {
                    track: "T1".to_string(),
                    begin: 0,
                    end: 10,
                    applicable_directions: ApplicableDirections::Both,
                }],
                on_routes: None,
                extensions: SpeedSectionExtensions { psl_sncf: None },
            },
        })
        .unwrap();
    let refs = cache.get_track_refs_type(&"T1".to_string(), ObjectType::SpeedSection);
    assert_eq!(refs.len(), 1);
    assert_eq!(refs[0].obj_id, "S1");

    // The validation pass later reports the dangling reference; the fix
    // engine proposes deleting the offender.
    let sw = switch_cache("sw1");
    let dangling = error_on(
        "sw1",
        InfraErrorType::InvalidReference {
            reference: ObjectRef::new(ObjectType::TrackSection, "T1".to_string()),
        },
    );
    let (fixes, unfixable) = fix_switch(&sw, vec![dangling]);
    assert!(unfixable.is_empty());
    assert_eq!(fixes.len(), 1);
    assert_eq!(fixes[0].0.obj_type, ObjectType::Switch);
    assert_eq!(fixes[0].0.obj_id, "sw1");
    match &fixes[0].1 {
        Operation::Delete(r) => {
            assert_eq!(r.obj_type, ObjectType::Switch);
            assert_eq!(r.obj_id, "sw1");
        }
        _ => panic!("expected a delete proposal"),
    }
}

#[test]
fn invalid_switch_ports_map_to_a_delete_of_the_switch() {
    let sw = switch_cache("sw2");
    let (fixes, unfixable) =
        fix_switch(&sw, vec![error_on("sw2", InfraErrorType::InvalidSwitchPorts)]);
    assert!(unfixable.is_empty());
    assert_eq!(fixes.len(), 1);
    assert!(matches!(&fixes[0].1, Operation::Delete(r) if r.obj_id == "sw2"));
}

#[test]
fn unrecognized_error_kinds_yield_an_empty_mapping() {
    let sw = switch_cache("sw3");
    let errors = vec![
        error_on(
            "sw3",
            InfraErrorType::UnknownPortName { port_name: "LEFT".to_string() },
        ),
        error_on("sw3", InfraErrorType::EmptyObject),
        // A dangling reference to something other than a track section is
        // not recognized either.
        error_on(
            "sw3",
            InfraErrorType::InvalidReference {
                reference: ObjectRef::new(ObjectType::Route, "r1".to_string()),
            },
        ),
    ];
    let (fixes, unfixable) = fix_switch(&sw, errors);
    assert!(fixes.is_empty());
    assert_eq!(unfixable.len(), 3);
    assert!(matches!(
        require_all_fixable(&unfixable),
        Err(InfraError::UnfixableError)
    ));
}

#[test]
fn unfixable_errors_are_reported_alongside_the_mapping() {
    let sw = switch_cache("sw4");
    let errors = vec![
        error_on("sw4", InfraErrorType::EmptyObject),
        error_on("sw4", InfraErrorType::InvalidSwitchPorts),
    ];
    let (fixes, unfixable) = fix_switch(&sw, errors);
    assert_eq!(fixes.len(), 1);
    assert_eq!(unfixable.len(), 1);
    assert!(matches!(unfixable[0].get_sub_type(), InfraErrorType::EmptyObject));
}

#[test]
fn the_delete_pair_names_the_switch_itself() {
    let sw = switch_cache("sw5");
    let (obj_ref, op) = new_ref_fix_delete_pair(&sw);
    assert_eq!(obj_ref.obj_id, "sw5");
    assert!(matches!(op, Operation::Delete(r) if r.obj_id == "sw5"));
    assert!(matches!(require_all_fixable(&vec![]), Ok(())));
}

#[test]
fn a_dangling_speed_section_maps_to_its_own_deletion() {
    // The general entry point works for any kind: a speed section left
    // behind after its track was deleted maps to its own deletion.
    let s1 = ObjectRef::new(ObjectType::SpeedSection, "S1".to_string());
    let dangling = ConsistencyError {
        obj_ref: s1.clone(),
        sub_type: InfraErrorType::InvalidReference {
            reference: ObjectRef::new(ObjectType::TrackSection, "T1".to_string()),
        },
    };
    let (fixes, unfixable) = fix_object(&s1, vec![dangling]);
    assert!(unfixable.is_empty());
    assert_eq!(fixes.len(), 1);
    assert_eq!(fixes[0].0, s1);
    assert!(matches!(
        &fixes[0].1,
        Operation::Delete(r) if r.obj_type == ObjectType::SpeedSection && r.obj_id == "S1"
    ));
}
