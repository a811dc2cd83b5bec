//! End-to-end scenarios against the store model, one worker iteration being
//! a lease (`next`) followed by a settlement attempt (`perform`).

use payq::model::{Decision, PaymentStatus, TaskError};
use payq::store::Store;

fn seeded(balance: i32, price: i32, stock: i32) -> (Store, i32, i32, i32) {
    let mut store = Store::new();
    let uid = store.insert_user("buyer".to_string(), "buyer@example.com".to_string(), balance);
    let gid = store.insert_product("thing".to_string(), price, stock, 0);
    let pid = store
        .insert_payment(gid, uid, price, 0)
        .expect("both referents exist");
    (store, uid, gid, pid)
}

#[test]
fn happy_path() {
    let (mut store, uid, gid, pid) = seeded(5000, 1200, 3);
    let task = store.next(10).expect("the fresh task is eligible");
    assert_eq!(task.tries_left, 4);
    assert!(task.processing);
    let d = store.perform(task.id).expect("all referents exist");
    assert_eq!(d, Decision::Accept { new_balance: 3800 });
    assert_eq!(store.get_user(uid).unwrap().balance, 3800);
    assert_eq!(store.get_product(gid).unwrap().stock, 2);
    assert_eq!(store.get_payment(pid).unwrap().status, PaymentStatus::Accepted);
    assert_eq!(store.task_count(), 0);
}

#[test]
fn reject_by_balance() {
    let (mut store, uid, gid, pid) = seeded(500, 1000, 10);
    let task = store.next(10).expect("the fresh task is eligible");
    let d = store.perform(task.id).expect("all referents exist");
    assert_eq!(
        d,
        Decision::RejectBalance {
            price: 1000,
            balance: 500
        }
    );
    assert_eq!(store.get_user(uid).unwrap().balance, 500);
    assert_eq!(store.get_product(gid).unwrap().stock, 10);
    assert_eq!(store.get_payment(pid).unwrap().status, PaymentStatus::Rejected);
    let row = store.get_task(task.id).expect("the task row is retained");
    assert_eq!(row.tries_left, 4);
    assert_eq!(
        row.error,
        Some(TaskError::InsufficientBalance {
            price: 1000,
            balance: 500
        })
    );
}

#[test]
fn reject_by_stock() {
    let (mut store, uid, gid, pid) = seeded(9999, 100, 0);
    let task = store.next(10).expect("the fresh task is eligible");
    let d = store.perform(task.id).expect("all referents exist");
    assert_eq!(d, Decision::RejectStock);
    assert_eq!(store.get_user(uid).unwrap().balance, 9999);
    assert_eq!(store.get_product(gid).unwrap().stock, 0);
    assert_eq!(store.get_payment(pid).unwrap().status, PaymentStatus::Rejected);
    let row = store.get_task(task.id).expect("the task row is retained");
    assert_eq!(row.tries_left, 0);
    assert_eq!(row.error, Some(TaskError::OutOfStock));
}

#[test]
fn concurrent_leases() {
    // 100 payments against one well-stocked product and one well-funded
    // buyer, drained by 10 interleaved workers: each round the workers all
    // lease before any settles, so up to 10 leases are in flight at once.
    let mut store = Store::new();
    let uid = store.insert_user("buyer".to_string(), "buyer@example.com".to_string(), 1_000_000);
    let gid = store.insert_product("thing".to_string(), 70, 500, 0);
    for _ in 0..100 {
        store.insert_payment(gid, uid, 70, 0).expect("referents exist");
    }
    let mut accepted: i32 = 0;
    let now: i64 = 10;
    loop {
        let mut leased = Vec::new();
        for _ in 0..10 {
            match store.next(now) {
                Some(task) => leased.push(task),
                None => break,
            }
        }
        if leased.is_empty() {
            break;
        }
        for task in leased {
            match store.perform(task.id).expect("referents exist") {
                Decision::Accept { .. } => accepted += 1,
                other => panic!("unexpected outcome: {:?}", other),
            }
        }
    }
    assert_eq!(accepted, 100);
    assert_eq!(store.get_user(uid).unwrap().balance, 1_000_000 - 100 * 70);
    assert_eq!(store.get_product(gid).unwrap().stock, 500 - 100);
    assert_eq!(store.task_count(), 0);
}

#[test]
fn lease_reclamation() {
    // A worker leases the task and dies before settling; a second worker
    // arrives more than a second later, reclaims the lease, and settles.
    let (mut store, uid, gid, pid) = seeded(5000, 1200, 3);
    let t0: i64 = 1000;
    let task = store.next(t0).expect("the fresh task is eligible");
    assert_eq!(task.tries_left, 4);
    // Within the TTL nothing can lease it again.
    assert!(store.next(t0 + 1000).is_none());
    // 1.1 s later the lease has expired and the row is reclaimed.
    let retry = store.next(t0 + 1101).expect("the lease expired");
    assert_eq!(retry.id, task.id);
    assert_eq!(retry.tries_left, 3);
    store.perform(retry.id).expect("all referents exist");
    assert_eq!(store.get_user(uid).unwrap().balance, 3800);
    assert_eq!(store.get_product(gid).unwrap().stock, 2);
    assert_eq!(store.get_payment(pid).unwrap().status, PaymentStatus::Accepted);
    assert_eq!(store.task_count(), 0);
}

#[test]
fn retry_exhaustion() {
    // The lease succeeds but every settlement attempt dies with a transient
    // error before committing (so the store sees no settlement at all);
    // after five leases the task is dead-lettered and never leased again.
    let (mut store, _uid, _gid, pid) = seeded(5000, 1200, 3);
    let mut now: i64 = 1000;
    for attempt in 0..5i32 {
        let task = store.next(now).expect("still leasable");
        assert_eq!(task.tries_left, 4 - attempt);
        now += 1100;
    }
    assert!(store.next(now).is_none());
    assert!(store.next(now + 100_000).is_none());
    assert_eq!(store.get_payment(pid).unwrap().status, PaymentStatus::Pending);
    assert_eq!(store.task_count(), 1);
}
