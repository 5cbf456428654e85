use model_service::{new_model_store, CreateModelRequest, DeleteModelRequest, Model, ModelStore};
use std::time::{SystemTime, UNIX_EPOCH};

fn now_ms() -> i64 {
    SystemTime::now().duration_since(UNIX_EPOCH).unwrap().as_millis() as i64
}

fn add(store: &mut ModelStore, name: &str, version: &str, data: &str) {
    store.add_model(name.to_string(), version.to_string(), data.to_string());
}

fn record(id: &str, name: &str) -> Model {
    Model {
        id: id.to_string(),
        name: name.to_string(),
        version: "v1".to_string(),
        data: "d".to_string(),
        create_time: 7,
    }
}

#[test]
fn new_store_is_empty() {
    let store = new_model_store();
    assert!(store.get_models().is_empty());
}

#[test]
fn created_record_holds_submitted_fields() {
    let mut store = new_model_store();
    let before = now_ms();
    add(&mut store, "m1", "v1", "abc");
    let after = now_ms();
    let models = store.get_models();
    assert_eq!(models.len(), 1);
    let m = &models[0];
    assert_eq!(m.name, "m1");
    assert_eq!(m.version, "v1");
    assert_eq!(m.data, "abc");
    assert_eq!(m.id.len(), 36);
    assert!(m.id.chars().all(|c| c.is_ascii_hexdigit() || c == '-'));
    assert!(before <= m.create_time && m.create_time <= after);
}

#[test]
fn created_ids_are_distinct() {
    let mut store = new_model_store();
    for i in 0..50 {
        add(&mut store, &format!("m{}", i), "v", &format!("payload {}", i));
    }
    let models = store.get_models();
    assert_eq!(models.len(), 50);
    for i in 0..50 {
        assert_eq!(models[i].data, format!("payload {}", i));
        for j in 0..i {
            assert_ne!(models[i].id, models[j].id);
        }
    }
}

#[test]
fn duplicate_names_are_allowed() {
    let mut store = new_model_store();
    add(&mut store, "same", "v1", "a");
    add(&mut store, "same", "v1", "a");
    let models = store.get_models();
    assert_eq!(models.len(), 2);
    assert_ne!(models[0].id, models[1].id);
}

#[test]
fn round_trip_hello() {
    let mut store = new_model_store();
    add(&mut store, "m", "v", "hello");
    let models = store.get_models();
    assert_eq!(models.len(), 1);
    assert_eq!(models[0].data, "hello");
}

#[test]
fn delete_removes_exactly_that_record() {
    let mut store = new_model_store();
    add(&mut store, "a", "v1", "1");
    add(&mut store, "b", "v1", "2");
    add(&mut store, "c", "v1", "3");
    let before = store.get_models();
    store.delete_model(before[1].id.clone());
    let after = store.get_models();
    assert_eq!(after.len(), 2);
    assert_eq!(after[0].id, before[0].id);
    assert_eq!(after[0].name, "a");
    assert_eq!(after[1].id, before[2].id);
    assert_eq!(after[1].name, "c");
    assert_eq!(after[1].create_time, before[2].create_time);
}

#[test]
fn delete_unknown_id_changes_nothing() {
    let mut store = new_model_store();
    add(&mut store, "a", "v1", "1");
    let before = store.get_models();
    store.delete_model("no-such-id".to_string());
    let after = store.get_models();
    assert_eq!(after.len(), 1);
    assert_eq!(after[0].id, before[0].id);
    assert_eq!(after[0].data, "1");
}

#[test]
fn delete_on_empty_store() {
    let mut store = new_model_store();
    store.delete_model(String::new());
    assert!(store.get_models().is_empty());
}

#[test]
fn create_list_delete_list_scenario() {
    let mut store = new_model_store();
    let create = CreateModelRequest {
        name: "m1".to_string(),
        version: "v1".to_string(),
        data: "abc".to_string(),
    };
    store.add_model(create.name, create.version, create.data);
    let models = store.get_models();
    assert_eq!(models.len(), 1);
    assert_eq!(models[0].name, "m1");
    let delete = DeleteModelRequest { id: models[0].id.clone() };
    store.delete_model(delete.id);
    assert!(store.get_models().is_empty());
}

#[test]
fn insert_refuses_a_held_id() {
    let mut store = new_model_store();
    assert!(store.insert_model(record("x", "first")));
    assert!(store.insert_model(record("y", "second")));
    assert!(!store.insert_model(record("x", "third")));
    let models = store.get_models();
    assert_eq!(models.len(), 2);
    assert_eq!(models[0].name, "first");
    assert_eq!(models[1].name, "second");
}

#[test]
fn contains_id_reports_presence() {
    let mut store = new_model_store();
    assert!(!store.contains_id(&"x".to_string()));
    store.insert_model(record("x", "n"));
    assert!(store.contains_id(&"x".to_string()));
    assert!(!store.contains_id(&"y".to_string()));
    store.delete_model("x".to_string());
    assert!(!store.contains_id(&"x".to_string()));
}

#[test]
fn listed_records_keep_every_field() {
    let mut store = new_model_store();
    store.insert_model(record("id-1", "n"));
    let m = &store.get_models()[0];
    assert_eq!(m.id, "id-1");
    assert_eq!(m.name, "n");
    assert_eq!(m.version, "v1");
    assert_eq!(m.data, "d");
    assert_eq!(m.create_time, 7);
}

#[test]
fn model_create_draws_fresh_ids() {
    let a = Model::create("n".to_string(), "v".to_string(), "d".to_string());
    let b = Model::create("n".to_string(), "v".to_string(), "d".to_string());
    assert_eq!(a.id.len(), 36);
    assert_eq!(&a.id[14..15], "4");
    for i in [8, 13, 18, 23] {
        assert_eq!(&a.id[i..i + 1], "-");
    }
    assert_ne!(a.id, b.id);
    assert!(a.create_time > 1_600_000_000_000);
}

#[test]
fn copied_keeps_every_field() {
    let m = record("k", "n");
    let c = m.copied();
    assert_eq!(c.id, m.id);
    assert_eq!(c.name, m.name);
    assert_eq!(c.version, m.version);
    assert_eq!(c.data, m.data);
    assert_eq!(c.create_time, m.create_time);
}
