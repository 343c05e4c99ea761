use blogstore::post::BlogPost;
use blogstore::store::{StoreError, VolatileStore};

fn candidate(title: &str, body: &str, author: &str) -> BlogPost {
    BlogPost::new(String::from("2024-01-01T00:00:00Z"), String::from(title), String::from(body), String::from(author))
}

#[test]
fn seeded_store_holds_the_two_fixtures() {
    let store = VolatileStore::new_seeded();
    assert_eq!(store.len(), 2);
    let first = store.get(1).unwrap();
    assert_eq!(first.id, 1);
    assert_eq!(first.title, "A Tale of Two Cities");
    assert_eq!(first.body, "It was the best of times, it was the worst of times.");
    assert_eq!(first.author, "Dickens");
    assert!(!first.date.is_empty());
    let second = store.get(2).unwrap();
    assert_eq!(second.id, 2);
    assert_eq!(second.title, "Moby Dick");
    assert_eq!(second.body, "Call me Ishmael.");
    assert_eq!(second.author, "Melville");
    assert!(!second.date.is_empty());
}

#[test]
fn scenario_volatile_create_then_read_back() {
    // seed ids {1,2}; create X/Y/Z; expect id 3; get(3) returns those
    // fields; list() then holds 3 records
    let mut store = VolatileStore::new_seeded();
    let id = store.create(candidate("X", "Y", "Z"));
    assert_eq!(id, 3);
    let read = store.get(3).unwrap();
    assert_eq!(read.id, 3);
    assert_eq!(read.title, "X");
    assert_eq!(read.body, "Y");
    assert_eq!(read.author, "Z");
    assert_eq!(store.list().len(), 3);
}

#[test]
fn get_fields_equal_submitted_candidate() {
    let mut store = VolatileStore::new_seeded();
    let id = store.create(candidate("t", "b", "a"));
    let read = store.get(id).unwrap();
    assert_eq!(read.title, "t");
    assert_eq!(read.body, "b");
    assert_eq!(read.author, "a");
    assert_eq!(read.date, "2024-01-01T00:00:00Z");
    assert_eq!(read.id, id);
}

#[test]
fn scenario_unknown_id_is_not_found() {
    let store = VolatileStore::new_seeded();
    match store.get(999) {
        Err(StoreError::NotFound) => {}
        other => panic!("expected NotFound, got {:?}", other.map(|p| p.id)),
    }
}

#[test]
fn candidate_id_is_ignored_on_create() {
    let mut store = VolatileStore::new_seeded();
    let mut c = candidate("t", "b", "a");
    c.id = 999;
    let id = store.create(c);
    assert_eq!(id, 3);
    assert!(matches!(store.get(999), Err(StoreError::NotFound)));
}

#[test]
fn concurrent_style_creates_get_distinct_ids() {
    // every serial order of creates hands out pairwise distinct ids
    let mut store = VolatileStore::new_seeded();
    let mut ids = Vec::new();
    for k in 0..5 {
        let title = format!("post {}", k);
        ids.push(store.create(candidate(&title, "b", "a")));
    }
    for i in 0..ids.len() {
        for j in 0..ids.len() {
            if i != j {
                assert_ne!(ids[i], ids[j]);
            }
        }
        assert!(!ids.contains(&1));
        assert!(!ids.contains(&2));
    }
}

#[test]
fn list_after_n_creates_holds_seeds_plus_n_distinct_records() {
    let n = 7;
    let mut store = VolatileStore::new_seeded();
    for k in 0..n {
        let title = format!("post {}", k);
        store.create(candidate(&title, "b", "a"));
    }
    let listed = store.list();
    assert_eq!(listed.len(), 2 + n);
    for i in 0..listed.len() {
        for j in 0..listed.len() {
            if i != j {
                assert_ne!(listed[i].id, listed[j].id);
            }
        }
    }
}

#[test]
fn create_on_empty_store_starts_at_one() {
    let mut store = VolatileStore::new();
    assert_eq!(store.len(), 0);
    let id = store.create(candidate("t", "b", "a"));
    assert_eq!(id, 1);
    assert_eq!(store.get(1).unwrap().title, "t");
}

#[test]
fn can_allocate_on_ordinary_stores() {
    let store = VolatileStore::new_seeded();
    assert!(store.can_allocate());
}
