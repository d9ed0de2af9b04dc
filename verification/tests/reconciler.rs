use reconciler::decode::{decode_event, decode_model, DecodeError, FieldValue, Model};
use reconciler::ingress::{drain, tick};
use reconciler::record::{Entity, Key, RemoteRecord};
use reconciler::store::EntityStore;

fn key(n: u64) -> Key {
    Key { w0: n, w1: 0, w2: 0, w3: 0 }
}

fn record(k: u64, remaining: u8, can_move: bool) -> RemoteRecord {
    RemoteRecord { key: key(k), remaining, can_move }
}

fn entities(store: &EntityStore) -> Vec<Entity> {
    let mut out = Vec::new();
    let mut i = 0;
    while i < store.len() {
        out.push(store.get(i));
        i += 1;
    }
    out
}

#[test]
fn uniqueness_over_a_mixed_drain() {
    let mut store = EntityStore::new();
    let records = vec![
        record(1, 10, true),
        record(2, 9, false),
        record(1, 8, true),
        record(3, 7, true),
        record(2, 6, true),
        record(1, 5, false),
    ];
    store.merge_all(&records);
    assert_eq!(store.len(), 3);
    let es = entities(&store);
    for i in 0..es.len() {
        for j in 0..es.len() {
            if i != j {
                assert_ne!(es[i].key, es[j].key);
            }
        }
    }
}

#[test]
fn idempotence_of_one_record() {
    let mut once = EntityStore::new();
    once.merge(record(7, 4, true));
    once.merge(record(9, 2, false));
    once.merge(record(7, 3, false));

    let mut twice = EntityStore::new();
    twice.merge(record(7, 4, true));
    twice.merge(record(9, 2, false));
    twice.merge(record(7, 3, false));
    twice.merge(record(7, 3, false));

    assert_eq!(once.len(), twice.len());
    assert_eq!(entities(&once), entities(&twice));
}

#[test]
fn order_sensitivity_last_applied_wins() {
    let mut store = EntityStore::new();
    store.merge(record(11, 5, true));
    store.merge(record(11, 3, true));
    assert_eq!(store.len(), 1);
    let e = store.find(key(11)).unwrap();
    assert_eq!(e.remaining, 3);
}

#[test]
fn creation_on_first_sight() {
    let mut store = EntityStore::new();
    assert!(store.find(key(21)).is_none());
    store.merge(record(21, 10, true));
    assert_eq!(store.len(), 1);
    let e = store.find(key(21)).unwrap();
    assert_eq!(e.key, key(21));
    assert_eq!(e.remaining, 10);
    assert!(e.can_move);
}

#[test]
fn no_cross_key_interference() {
    let mut store = EntityStore::new();
    store.merge(record(2, 42, false));
    let before = store.find(key(2)).unwrap();
    store.merge(record(1, 7, true));
    assert_eq!(store.find(key(2)).unwrap(), before);
    assert_eq!(store.len(), 2);
}

#[test]
fn empty_drain_is_a_no_op() {
    let (_tx, rx) = async_channel::unbounded::<RemoteRecord>();
    let mut store = EntityStore::new();
    store.merge(record(5, 1, true));
    let before = entities(&store);
    let n = tick(&rx, &mut store, 64);
    assert_eq!(n, 0);
    assert_eq!(entities(&store), before);
}

#[test]
fn can_move_is_frozen_at_creation() {
    let mut store = EntityStore::new();
    store.merge(record(4, 9, true));
    store.merge(record(4, 8, false));
    let e = store.find(key(4)).unwrap();
    assert_eq!(e.remaining, 8);
    assert!(e.can_move);
}

#[test]
fn tick_folds_queued_records_in_arrival_order() {
    let (tx, rx) = async_channel::unbounded::<RemoteRecord>();
    tx.try_send(record(1, 5, true)).unwrap();
    tx.try_send(record(2, 9, false)).unwrap();
    tx.try_send(record(1, 3, true)).unwrap();
    let mut store = EntityStore::new();
    let n = tick(&rx, &mut store, 64);
    assert_eq!(n, 3);
    assert_eq!(store.len(), 2);
    assert_eq!(store.find(key(1)).unwrap().remaining, 3);
    assert_eq!(store.find(key(2)).unwrap().remaining, 9);
}

#[test]
fn drain_is_capped_and_continues_next_tick() {
    let (tx, rx) = async_channel::unbounded::<RemoteRecord>();
    tx.try_send(record(1, 1, true)).unwrap();
    tx.try_send(record(2, 2, true)).unwrap();
    tx.try_send(record(3, 3, true)).unwrap();
    let mut store = EntityStore::new();
    let n = tick(&rx, &mut store, 2);
    assert_eq!(n, 2);
    assert_eq!(store.len(), 2);
    let n = tick(&rx, &mut store, 2);
    assert_eq!(n, 1);
    assert_eq!(store.len(), 3);
}

#[test]
fn drain_reports_a_gone_producer() {
    let (tx, rx) = async_channel::unbounded::<RemoteRecord>();
    tx.try_send(record(8, 2, false)).unwrap();
    drop(tx);
    let d = drain(&rx, 64);
    assert_eq!(d.records.len(), 1);
    assert!(d.closed);
}

fn moves_model(name: &str) -> Model {
    Model {
        name: name.as_bytes().to_vec(),
        fields: vec![
            FieldValue::Address { key: key(77) },
            FieldValue::Counter { count: 10 },
            FieldValue::Flag { flag: true },
        ],
    }
}

#[test]
fn decode_accepts_a_namespaced_moves_model() {
    let r = decode_model(&moves_model("dojo_starter-Moves")).unwrap();
    assert_eq!(r.key, key(77));
    assert_eq!(r.remaining, 10);
    assert!(r.can_move);
}

#[test]
fn decode_accepts_a_bare_moves_name() {
    assert!(decode_model(&moves_model("Moves")).is_ok());
    assert!(decode_model(&moves_model("a-b-Moves")).is_ok());
}

#[test]
fn decode_rejects_other_schema_names() {
    for name in ["Position", "xMoves", "Moves-", "Moved", "", "dojo-Position"] {
        assert_eq!(
            decode_model(&moves_model(name)),
            Err(DecodeError::UnrecognizedSchema),
            "name {:?}",
            name
        );
    }
}

#[test]
fn decode_rejects_a_malformed_moves_model() {
    let mut m = moves_model("dojo_starter-Moves");
    m.fields.truncate(2);
    assert_eq!(decode_model(&m), Err(DecodeError::MalformedRecord));

    let mut m = moves_model("dojo_starter-Moves");
    m.fields[1] = FieldValue::Other;
    assert_eq!(decode_model(&m), Err(DecodeError::MalformedRecord));

    let mut m = moves_model("dojo_starter-Moves");
    m.fields.swap(0, 2);
    assert_eq!(decode_model(&m), Err(DecodeError::MalformedRecord));
}

#[test]
fn decode_ignores_extra_trailing_fields() {
    let mut m = moves_model("dojo_starter-Moves");
    m.fields.push(FieldValue::Other);
    let r = decode_model(&m).unwrap();
    assert_eq!(r.remaining, 10);
}

#[test]
fn decode_event_wants_exactly_one_model() {
    let none: Vec<Model> = vec![];
    assert_eq!(decode_event(&none), Err(DecodeError::UnexpectedModelCount));
    let two = vec![moves_model("a-Moves"), moves_model("b-Moves")];
    assert_eq!(decode_event(&two), Err(DecodeError::UnexpectedModelCount));
    let one = vec![moves_model("a-Moves")];
    assert!(decode_event(&one).is_ok());
}
