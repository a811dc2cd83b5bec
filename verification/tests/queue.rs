//! Unit tests: the decision rule, dispatch order, back-off and reclamation
//! eligibility, inserts and their foreign keys, the supervisor's admission
//! bound, and the schema bootstrap.

use payq::lease::{dispatches_before, eligible_now};
use payq::model::{decide, Decision, PaymentStatus, PaymentTask, INITIAL_TRIES};
use payq::schema::create_tables;
use payq::store::{InsertError, Store};
use payq::worker::{Action, Supervisor};

fn bare_task(id: i32) -> PaymentTask {
    PaymentTask {
        id,
        payment_id: id,
        tries_left: INITIAL_TRIES,
        error: None,
        processing: false,
        next_try_at: None,
        created_at: 0,
        updated_at: 0,
    }
}

#[test]
fn decide_exact_boundaries() {
    assert_eq!(decide(1000, 1000, 1), Decision::Accept { new_balance: 0 });
    assert_eq!(
        decide(999, 1000, 1),
        Decision::RejectBalance {
            price: 1000,
            balance: 999
        }
    );
    assert_eq!(decide(1000, 1000, 0), Decision::RejectStock);
    assert_eq!(decide(0, 0, 5), Decision::Accept { new_balance: 0 });
}

#[test]
fn balance_checked_before_stock() {
    // Both are short: the balance reject wins, and the task keeps its tries.
    assert_eq!(
        decide(10, 700, 0),
        Decision::RejectBalance {
            price: 700,
            balance: 10
        }
    );
}

#[test]
fn insert_payment_needs_both_referents() {
    let mut store = Store::new();
    let uid = store.insert_user("u".to_string(), "u@example.com".to_string(), 100);
    assert_eq!(store.insert_payment(7, uid, 10, 0), Err(InsertError::NoSuchProduct));
    let gid = store.insert_product("g".to_string(), 10, 1, 0);
    assert_eq!(store.insert_payment(gid, 99, 10, 0), Err(InsertError::NoSuchUser));
    assert_eq!(store.task_count(), 0);
    let pid = store.insert_payment(gid, uid, 10, 0).expect("both exist now");
    assert_eq!(store.get_payment(pid).unwrap().status, PaymentStatus::Pending);
    assert_eq!(store.task_count(), 1);
}

#[test]
fn trigger_enqueues_one_task_per_payment() {
    let mut store = Store::new();
    let uid = store.insert_user("u".to_string(), "u@example.com".to_string(), 100);
    let gid = store.insert_product("g".to_string(), 10, 5, 0);
    let p1 = store.insert_payment(gid, uid, 10, 0).unwrap();
    let p2 = store.insert_payment(gid, uid, 10, 0).unwrap();
    assert_ne!(p1, p2);
    assert_eq!(store.task_count(), 2);
    let t1 = store.get_task(1).expect("first task row");
    assert_eq!(t1.payment_id, p1);
    assert_eq!(t1.tries_left, 5);
    assert!(!t1.processing);
    assert_eq!(t1.error, None);
    let t2 = store.get_task(2).expect("second task row");
    assert_eq!(t2.payment_id, p2);
}

#[test]
fn eligibility_backoff_and_reclamation() {
    let mut fresh = bare_task(1);
    assert!(eligible_now(&fresh, 0));
    fresh.tries_left = 0;
    assert!(!eligible_now(&fresh, 0));

    let mut deferred = bare_task(2);
    deferred.next_try_at = Some(500);
    assert!(!eligible_now(&deferred, 400));
    assert!(!eligible_now(&deferred, 500));
    assert!(eligible_now(&deferred, 501));

    let mut processing = bare_task(3);
    processing.processing = true;
    processing.updated_at = 1000;
    assert!(!eligible_now(&processing, 1500));
    assert!(!eligible_now(&processing, 2000));
    assert!(eligible_now(&processing, 2001));
}

#[test]
fn dispatch_order_nulls_first_then_id() {
    let never_tried = bare_task(9);
    let mut deferred = bare_task(1);
    deferred.next_try_at = Some(5);
    assert!(dispatches_before(&never_tried, &deferred));
    assert!(!dispatches_before(&deferred, &never_tried));

    let mut earlier = bare_task(8);
    earlier.next_try_at = Some(3);
    assert!(dispatches_before(&earlier, &deferred));

    let a = bare_task(1);
    let b = bare_task(2);
    assert!(dispatches_before(&a, &b));
    assert!(!dispatches_before(&b, &a));
}

#[test]
fn next_takes_fifo_by_schedule() {
    let mut store = Store::new();
    let uid = store.insert_user("u".to_string(), "u@example.com".to_string(), 100);
    let gid = store.insert_product("g".to_string(), 10, 5, 0);
    store.insert_payment(gid, uid, 10, 0).unwrap();
    store.insert_payment(gid, uid, 10, 0).unwrap();
    // Both never tried: the lower key goes first.
    let first = store.next(10).unwrap();
    assert_eq!(first.id, 1);
    let second = store.next(10).unwrap();
    assert_eq!(second.id, 2);
    assert!(store.next(10).is_none());
}

#[test]
fn lease_clears_error_and_backoff() {
    let mut store = Store::new();
    let uid = store.insert_user("u".to_string(), "u@example.com".to_string(), 1);
    let gid = store.insert_product("g".to_string(), 10, 5, 0);
    store.insert_payment(gid, uid, 10, 0).unwrap();
    let t = store.next(10).unwrap();
    store.perform(t.id).unwrap();
    // Rejected by balance: the error is recorded, then the retry wipes it.
    assert!(store.get_task(t.id).unwrap().error.is_some());
    let retried = store.next(5000).unwrap();
    assert_eq!(retried.id, t.id);
    assert_eq!(retried.error, None);
    assert_eq!(retried.tries_left, 3);
    assert_eq!(store.get_task(t.id).unwrap().error, None);
}

#[test]
fn supervisor_bounds_in_flight() {
    let mut sup = Supervisor::new(2);
    assert!(sup.permit_free());
    sup.acquire();
    assert_eq!(sup.after_poll(true), Action::Settle);
    sup.acquire();
    assert_eq!(sup.after_poll(true), Action::Settle);
    assert!(!sup.permit_free());
    sup.settled();
    assert!(sup.permit_free());
    sup.acquire();
    // Queue empty: the permit comes back and the loop sleeps.
    assert_eq!(sup.after_poll(false), Action::Sleep { millis: 500 });
    assert!(sup.permit_free());
}

#[test]
fn bootstrap_batch_builds_schema_and_trigger() {
    let sql = create_tables();
    assert!(sql.contains("create table if not exists users"));
    assert!(sql.contains("create table if not exists products"));
    assert!(sql.contains("create table if not exists payments"));
    assert!(sql.contains("create table if not exists payment_tasks"));
    assert!(sql.contains("tries_left int not null default 5"));
    assert!(sql.contains("CREATE TRIGGER process_payment_trigger"));
    assert!(sql.contains("AFTER INSERT"));
    // Running it twice is running it once: every statement drops or
    // replaces before it creates.
    assert!(sql.contains("drop table if exists"));
    assert!(sql.contains("CREATE OR REPLACE FUNCTION insert_into_payment_task"));
}

#[test]
fn fresh_store_is_empty() {
    let store = Store::new();
    assert_eq!(store.task_count(), 0);
    assert!(store.get_user(1).is_none());
    assert!(store.get_product(1).is_none());
    assert!(store.get_payment(1).is_none());
    assert!(store.get_task(1).is_none());
    assert!(Store::new().next(0).is_none());
}

#[test]
fn settlement_charges_price_not_amount() {
    // The payment's `amount` is informational: the debit is the product's
    // current price.
    let mut store = Store::new();
    let uid = store.insert_user("u".to_string(), "u@example.com".to_string(), 1000);
    let gid = store.insert_product("g".to_string(), 300, 2, 0);
    store.insert_payment(gid, uid, 9999, 0).unwrap();
    let t = store.next(10).unwrap();
    let d = store.perform(t.id).unwrap();
    assert_eq!(d, Decision::Accept { new_balance: 700 });
    assert_eq!(store.get_user(uid).unwrap().balance, 700);
}

#[test]
fn rejected_payment_succeeds_after_funds_arrive() {
    // A balance reject keeps the task; once the buyer is funded, the retry
    // accepts the same payment.
    let mut store = Store::new();
    let uid = store.insert_user("u".to_string(), "u@example.com".to_string(), 100);
    let gid = store.insert_product("g".to_string(), 300, 2, 0);
    let pid = store.insert_payment(gid, uid, 300, 0).unwrap();
    let t = store.next(10).unwrap();
    store.perform(t.id).unwrap();
    assert_eq!(store.get_payment(pid).unwrap().status, PaymentStatus::Rejected);
    // Funds arrive out of band.
    store.users[0].balance = 500;
    let t2 = store.next(5000).unwrap();
    let d = store.perform(t2.id).unwrap();
    assert_eq!(d, Decision::Accept { new_balance: 200 });
    assert_eq!(store.get_payment(pid).unwrap().status, PaymentStatus::Accepted);
    assert_eq!(store.task_count(), 0);
}

#[test]
fn backoff_defers_lease() {
    let mut store = Store::new();
    let uid = store.insert_user("u".to_string(), "u@example.com".to_string(), 1000);
    let gid = store.insert_product("g".to_string(), 10, 5, 0);
    store.insert_payment(gid, uid, 10, 0).unwrap();
    store.insert_payment(gid, uid, 10, 0).unwrap();
    // Defer the first task; the second, never deferred, goes first.
    store.tasks[0].next_try_at = Some(10_000);
    let t = store.next(100).unwrap();
    assert_eq!(t.id, 2);
    store.perform(t.id).unwrap();
    // The deferred row must wait for its back-off to expire.
    assert!(store.next(100).is_none());
    assert!(store.next(10_000).is_none());
    let t2 = store.next(10_001).unwrap();
    assert_eq!(t2.id, 1);
    assert_eq!(t2.next_try_at, None);
}
