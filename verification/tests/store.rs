use crypto_hire_backend::backing::{RawMemory, RegionManager};
use crypto_hire_backend::job::Job;
use crypto_hire_backend::store::JobStore;

fn job(id: u64, title: &str) -> Job {
    Job {
        id,
        title: String::from(title),
        description: String::new(),
        created_at: 0,
        applicant_name: vec![],
        accepted_applicants: None,
    }
}

fn fresh_store() -> JobStore {
    let manager = RegionManager::init(RawMemory::new());
    JobStore::init(manager.region(1))
}

#[test]
fn get_on_empty_map_is_absent_not_an_error() {
    let store = fresh_store();
    assert!(store.get(999).unwrap().is_none());
}

#[test]
fn observed_value_is_the_most_recent_insert_not_followed_by_remove() {
    let mut store = fresh_store();

    assert!(store.insert(10, &job(10, "first")).unwrap().is_none());
    assert_eq!(store.get(10).unwrap().unwrap().title, "first");

    // A later insert of the same key replaces, returning the prior value.
    let prev = store.insert(10, &job(10, "second")).unwrap().unwrap();
    assert_eq!(prev.title, "first");
    assert_eq!(store.get(10).unwrap().unwrap().title, "second");

    // Operations on a distinct key leave it untouched.
    store.insert(20, &job(20, "other")).unwrap();
    store.remove(20).unwrap().unwrap();
    assert_eq!(store.get(10).unwrap().unwrap().title, "second");

    // After a remove the key is absent.
    let removed = store.remove(10).unwrap().unwrap();
    assert_eq!(removed.title, "second");
    assert!(store.get(10).unwrap().is_none());

    // Removing an absent key is a reported no-op.
    assert!(store.remove(10).unwrap().is_none());
}

#[test]
fn keys_come_back_sorted_whatever_the_insert_order() {
    let mut store = fresh_store();
    for k in [42u64, 7, 19, 3, 100] {
        store.insert(k, &job(k, "j")).unwrap();
    }
    assert_eq!(store.keys_in_order(), vec![3, 7, 19, 42, 100]);
}
