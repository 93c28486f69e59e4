use txt_store::store::Store;

#[test]
fn create_then_list_contains() {
    let mut store = Store::new();
    let rec = store.create("hello".to_string());
    assert_eq!(rec.id, 1);
    assert_eq!(rec.txt, "hello");
    let rows = store.list();
    assert_eq!(rows.len(), 1);
    assert_eq!(rows[0].id, 1);
    assert_eq!(rows[0].txt, "hello");
}

#[test]
fn delete_succeeds_exactly_once() {
    let mut store = Store::new();
    let rec = store.create("gone soon".to_string());
    let first = store.delete(rec.id);
    match first {
        Ok(prior) => {
            assert_eq!(prior.id, rec.id);
            assert_eq!(prior.txt, "gone soon");
        }
        Err(_) => panic!("first delete must succeed"),
    }
    let second = store.delete(rec.id);
    match second {
        Ok(_) => panic!("second delete of the same id must fail"),
        Err(e) => {
            let msg = e.message();
            assert!(!msg.is_empty());
        }
    }
}

#[test]
fn list_count_reflects_creates_minus_deletes() {
    let mut store = Store::new();
    let a = store.create("a".to_string());
    let _b = store.create("b".to_string());
    assert_eq!(store.count(), 2);
    assert!(store.delete(a.id).is_ok());
    assert_eq!(store.count(), 1);
    let _c = store.create("c".to_string());
    let _d = store.create("d".to_string());
    assert_eq!(store.count(), 3);
    assert!(store.delete(999).is_err());
    assert_eq!(store.count(), 3);
    assert_eq!(store.list().len(), 3);
}

#[test]
fn created_ids_are_pairwise_distinct() {
    let mut store = Store::new();
    let mut ids = Vec::new();
    for k in 0..5 {
        let rec = store.create(format!("row {}", k));
        ids.push(rec.id);
    }
    for i in 0..ids.len() {
        for j in 0..ids.len() {
            if i != j {
                assert_ne!(ids[i], ids[j]);
            }
        }
    }
}

#[test]
fn ids_are_not_reused_after_delete() {
    let mut store = Store::new();
    let a = store.create("first".to_string());
    assert!(store.delete(a.id).is_ok());
    let b = store.create("second".to_string());
    assert_ne!(a.id, b.id);
}
