use editoast::applier::apply_edit_transaction;
use editoast::errors::InfraError;
use editoast::infra_cache::InfraCache;
use editoast::layer::affected_ids;
use editoast::operation::{Operation, UpdateOperation};
use editoast::schema::{
    ApplicableDirections, ApplicableDirectionsTrackRange, ObjectRef, ObjectType, RailjsonObject,
    Signal, SpeedSection, SpeedSectionExtensions, TrackSection,
};
use editoast::speed_section_layer::SpeedSectionLayer;
use editoast::store::ObjectStore;
use editoast::switch_layer::SwitchLayer;

fn range(track: &str) -> ApplicableDirectionsTrackRange {
    ApplicableDirectionsTrackRange {
        track: track.to_string(),
        begin: 0,
        end: 1000,
        applicable_directions: ApplicableDirections::Both,
    }
}

fn track(id: &str, length: u64) -> RailjsonObject {
    RailjsonObject::TrackSection { railjson: TrackSection { id: id.to_string(), length } }
}

fn signal(id: &str, t: &str) -> RailjsonObject {
    RailjsonObject::Signal {
        railjson: Signal { id: id.to_string(), track: t.to_string(), position: 0 },
    }
}

fn speed_section(id: &str, tracks: &[&str]) -> RailjsonObject {
    RailjsonObject::SpeedSection {
        railjson: SpeedSection {
            id: id.to_string(),
            speed_limit: Some(22),
            speed_limit_by_tag: vec![],
            track_ranges: tracks.iter().map(|t| range(t)).collect(),
            on_routes: None,
            extensions: SpeedSectionExtensions { psl_sncf: None },
        },
    }
}

fn update_op(obj: RailjsonObject) -> Operation {
    let (obj_type, obj_id) = match &obj {
        RailjsonObject::TrackSection { railjson } => {
            (ObjectType::TrackSection, railjson.id.clone())
        }
        RailjsonObject::SpeedSection { railjson } => {
            (ObjectType::SpeedSection, railjson.id.clone())
        }
        RailjsonObject::Signal { railjson } => (ObjectType::Signal, railjson.id.clone()),
        _ => panic!("unsupported kind in this test"),
    };
    Operation::Update(UpdateOperation { obj_type, obj_id, railjson: obj })
}

/// The observable rows of a speed-section layer, sorted by id.
fn speed_rows(layer: &SpeedSectionLayer) -> Vec<(String, Vec<(String, u64)>)> {
    let mut ids = layer.table.row_ids();
    ids.sort();
    ids.into_iter()
        .map(|id| {
            let row = layer.table.get_row(&id).unwrap().clone();
            (id, row)
        })
        .collect()
}

#[test]
fn generate_produces_one_row_per_object_with_track_join() {
    let mut store = ObjectStore::new();
    store.apply_operation(Operation::Create(track("t1", 5000))).unwrap();
    store.apply_operation(Operation::Create(speed_section("ss1", &["t1", "tmissing"]))).unwrap();
    store.apply_operation(Operation::Create(signal("sig1", "t1"))).unwrap();

    let mut layer = SpeedSectionLayer::new();
    layer.generate(&store);

    let rows = speed_rows(&layer);
    assert_eq!(rows.len(), 1);
    assert_eq!(rows[0].0, "ss1");
    // Only the track present in the store is joined.
    assert_eq!(rows[0].1, vec![("t1".to_string(), 5000)]);
}

#[test]
fn update_after_each_batch_equals_generate_once_at_the_end() {
    // A fixed sequence of batches over a small infrastructure: the layer
    // maintained incrementally equals the layer generated from scratch.
    let batches: Vec<Vec<Operation>> = vec![
        vec![
            Operation::Create(track("t1", 1000)),
            Operation::Create(track("t2", 2000)),
            Operation::Create(speed_section("ss1", &["t1"])),
            Operation::Create(speed_section("ss2", &["t1", "t2"])),
        ],
        vec![update_op(track("t1", 1500))],
        vec![
            Operation::Delete(ObjectRef::new(ObjectType::SpeedSection, "ss1".to_string())),
            Operation::Create(speed_section("ss3", &["t2"])),
        ],
        vec![update_op(speed_section("ss2", &["t2"])), update_op(track("t2", 2500))],
    ];

    let mut store = ObjectStore::new();
    let mut cache = InfraCache::new();
    let mut incremental = SpeedSectionLayer::new();
    let mut incremental_switches = SwitchLayer::new();

    for batch in &batches {
        apply_edit_transaction(&mut cache, &mut store, batch.clone()).unwrap();
        incremental.update(batch, &cache, &store);
        incremental_switches.update(batch, &cache, &store);
    }

    let mut full = SpeedSectionLayer::new();
    full.generate(&store);
    assert_eq!(speed_rows(&incremental), speed_rows(&full));

    let mut full_switches = SwitchLayer::new();
    full_switches.generate(&store);
    let mut a = incremental_switches.table.row_ids();
    let mut b = full_switches.table.row_ids();
    a.sort();
    b.sort();
    assert_eq!(a, b);
}

#[test]
fn track_update_affects_exactly_its_dependents() {
    // A batch holding only an update of one track section: both speed
    // sections depending on it, and nothing else, are affected.
    let mut cache = InfraCache::new();
    cache.apply_create(&speed_section("ss1", &["t1"])).unwrap();
    cache.apply_create(&speed_section("ss2", &["t1", "t2"])).unwrap();
    cache.apply_create(&speed_section("other", &["t9"])).unwrap();
    cache.apply_create(&signal("sig1", "t1")).unwrap();

    let batch = vec![update_op(track("t1", 800))];
    let mut ids = affected_ids(&batch, &cache, ObjectType::SpeedSection);
    ids.sort();
    assert_eq!(ids, vec!["ss1".to_string(), "ss2".to_string()]);

    let mut signal_ids = affected_ids(&batch, &cache, ObjectType::Signal);
    signal_ids.sort();
    assert_eq!(signal_ids, vec!["sig1".to_string()]);
}

#[test]
fn affected_ids_deduplicates_across_operations() {
    let mut cache = InfraCache::new();
    cache.apply_create(&speed_section("ss1", &["t1"])).unwrap();
    let batch = vec![
        update_op(track("t1", 800)),
        update_op(speed_section("ss1", &["t1"])),
        Operation::Delete(ObjectRef::new(ObjectType::SpeedSection, "ss1".to_string())),
    ];
    let ids = affected_ids(&batch, &cache, ObjectType::SpeedSection);
    assert_eq!(ids, vec!["ss1".to_string()]);
}

#[test]
fn update_list_deletes_then_regenerates_only_the_given_rows() {
    let mut store = ObjectStore::new();
    store.apply_operation(Operation::Create(track("t1", 100))).unwrap();
    store.apply_operation(Operation::Create(speed_section("ss1", &["t1"]))).unwrap();
    store.apply_operation(Operation::Create(speed_section("ss2", &["t1"]))).unwrap();

    let mut layer = SpeedSectionLayer::new();
    layer.generate(&store);

    // ss2 leaves the store; ss9 never existed.
    store
        .apply_operation(Operation::Delete(ObjectRef::new(
            ObjectType::SpeedSection,
            "ss2".to_string(),
        )))
        .unwrap();
    layer.update_list(&store, &vec!["ss2".to_string(), "ss9".to_string()]);

    let rows = speed_rows(&layer);
    assert_eq!(rows.len(), 1);
    assert_eq!(rows[0].0, "ss1");
}

#[test]
fn clear_removes_every_row() {
    let mut store = ObjectStore::new();
    store.apply_operation(Operation::Create(speed_section("ss1", &[]))).unwrap();
    let mut layer = SpeedSectionLayer::new();
    layer.generate(&store);
    assert_eq!(layer.table.row_count(), 1);
    layer.clear();
    assert_eq!(layer.table.row_count(), 0);
    assert_eq!(SpeedSectionLayer::table_name(), "osrd_infra_speedsectionlayer");
    assert_eq!(SwitchLayer::table_name(), "infra_layer_switch");
}

#[test]
fn an_empty_batch_changes_nothing() {
    let mut store = ObjectStore::new();
    store.apply_operation(Operation::Create(track("t1", 100))).unwrap();
    store.apply_operation(Operation::Create(speed_section("ss1", &["t1"]))).unwrap();
    let cache = InfraCache::new();
    let mut layer = SpeedSectionLayer::new();
    layer.generate(&store);
    let before = speed_rows(&layer);
    layer.update(&vec![], &cache, &store);
    assert_eq!(before, speed_rows(&layer));
}

#[test]
fn a_rejected_transaction_is_surfaced() {
    let mut store = ObjectStore::new();
    let mut cache = InfraCache::new();
    let batch = vec![
        Operation::Create(track("t1", 100)),
        Operation::Create(track("t1", 200)),
    ];
    let r = apply_edit_transaction(&mut cache, &mut store, batch);
    assert!(matches!(r, Err(InfraError::InvariantViolation)));
}
