use uuid::Uuid;
use zenith::plan_store::PlanStore;

#[test]
fn insert_and_take_valid_removes_plan_once() {
    let mut store: PlanStore<&str> = PlanStore::new();
    let plan_id = Uuid::new_v4().as_u128();

    assert!(store.insert(plan_id, 1000, "plan", 1000).is_ok());
    assert_eq!(store.len(), 1);

    let taken = store.take_valid(plan_id, 1050).unwrap();
    assert_eq!(taken, "plan");

    assert!(store.take_valid(plan_id, 1050).is_err());
    assert_eq!(store.len(), 0);
}

#[test]
fn expired_plan_cannot_be_taken() {
    let mut store: PlanStore<u32> = PlanStore::with_ttl_and_capacity(60, 4);
    store.insert(1, 1000, 7, 1000).unwrap();
    assert!(store.take_valid(1, 1060).is_err());
    assert!(store.is_empty(), "an expired plan is consumed by the refusal");
}

#[test]
fn capacity_evicts_oldest_plan() {
    let mut store: PlanStore<u32> = PlanStore::with_ttl_and_capacity(600, 2);
    store.insert(1, 1000, 1, 1000).unwrap();
    store.insert(2, 1001, 2, 1001).unwrap();
    store.insert(3, 1002, 3, 1002).unwrap();
    assert_eq!(store.len(), 2);
    assert!(store.take_valid(1, 1003).is_err());
    assert_eq!(store.take_valid(2, 1003).unwrap(), 2);
    assert_eq!(store.take_valid(3, 1003).unwrap(), 3);
}

#[test]
fn expired_plans_are_purged() {
    let mut store: PlanStore<u32> = PlanStore::with_ttl_and_capacity(10, 8);
    store.insert(1, 100, 1, 100).unwrap();
    store.insert(2, 105, 2, 105).unwrap();
    store.purge_expired(112);
    assert_eq!(store.len(), 1);
    assert_eq!(store.ttl_seconds(), 10);
}
