//! The laws of the queue: the store invariants, their preservation by every
//! operation, the settlement conservation equations, the no-double-lease
//! guarantee, and retry determinism.

use vstd::prelude::*;

use crate::lease::{eligible, leased, lemma_selected, next_ret, next_tr, selected};
use crate::model::{spec_decide, Decision, Payment, PaymentStatus, PaymentTask, Product, User, LEASE_TTL_MS};
use crate::settle::{accept_tr, perform_tr, reject_balance_tr, reject_stock_tr};
use crate::store::{
    find_payment, find_product, find_task, find_user, init_model, insert_payment_tr,
    insert_product_tr, insert_user_tr, lemma_find_payment, lemma_find_payment_at,
    lemma_find_product, lemma_find_product_at, lemma_find_task, lemma_find_task_at,
    lemma_find_user, lemma_find_user_at, payment_ok, product_ok, task_ok, task_payment, user_ok,
    wf, Model,
};

verus! {

// ---------------------------------------------------------------------------
// The store invariants, stated on their own.
// ---------------------------------------------------------------------------

/// Every task row references an existing payment row: no orphan tasks.
pub open spec fn no_orphan_tasks(m: Model) -> bool {
    forall|i: int|
        0 <= i < m.tasks.len() ==> find_payment(m.payments, (#[trigger] m.tasks[i]).payment_id)
            is Some
}

/// No payment is accepted while its task row still exists.
pub open spec fn accepted_leaves_no_task(m: Model) -> bool {
    forall|i: int|
        0 <= i < m.tasks.len() ==> task_payment(m.payments, #[trigger] m.tasks[i]).status
            != PaymentStatus::Accepted
}

/// A dead-lettered task — no tries left and an error recorded — belongs to
/// a payment that has reached a terminal status.
pub open spec fn dead_letter_settled(m: Model) -> bool {
    forall|i: int|
        0 <= i < m.tasks.len() ==> ((#[trigger] m.tasks[i]).tries_left == 0 && m.tasks[i].error
            is Some ==> task_payment(m.payments, m.tasks[i]).status != PaymentStatus::Pending)
}

/// Balances and stock never go negative.
pub open spec fn quantities_nonnegative(m: Model) -> bool {
    &&& forall|i: int| 0 <= i < m.users.len() ==> (#[trigger] m.users[i]).balance >= 0
    &&& forall|i: int| 0 <= i < m.products.len() ==> (#[trigger] m.products[i]).stock >= 0
}

/// Tries never go negative.
pub open spec fn tries_nonnegative(m: Model) -> bool {
    forall|i: int| 0 <= i < m.tasks.len() ==> (#[trigger] m.tasks[i]).tries_left >= 0
}

/// Every well-formed store satisfies the queue's standing invariants.
pub proof fn lemma_wf_invariants(m: Model)
    requires
        wf(m),
    ensures
        no_orphan_tasks(m),
        accepted_leaves_no_task(m),
        dead_letter_settled(m),
        quantities_nonnegative(m),
        tries_nonnegative(m),
{
    assert forall|i: int| 0 <= i < m.tasks.len() implies find_payment(
        m.payments,
        (#[trigger] m.tasks[i]).payment_id,
    ) is Some by {
        assert(task_ok(m.tasks[i], m.payments, m.next_task_id));
    }
    assert forall|i: int| 0 <= i < m.tasks.len() implies task_payment(
        m.payments,
        #[trigger] m.tasks[i],
    ).status != PaymentStatus::Accepted by {
        assert(task_ok(m.tasks[i], m.payments, m.next_task_id));
    }
    assert forall|i: int|
        0 <= i < m.tasks.len() implies ((#[trigger] m.tasks[i]).tries_left == 0 && m.tasks[i].error
        is Some ==> task_payment(m.payments, m.tasks[i]).status != PaymentStatus::Pending) by {
        assert(task_ok(m.tasks[i], m.payments, m.next_task_id));
    }
    assert forall|i: int| 0 <= i < m.users.len() implies (#[trigger] m.users[i]).balance >= 0 by {
        assert(user_ok(m.users[i], m.next_user_id));
    }
    assert forall|i: int| 0 <= i < m.products.len() implies (#[trigger] m.products[i]).stock
        >= 0 by {
        assert(product_ok(m.products[i], m.next_product_id));
    }
    assert forall|i: int| 0 <= i < m.tasks.len() implies (#[trigger] m.tasks[i]).tries_left
        >= 0 by {
        assert(task_ok(m.tasks[i], m.payments, m.next_task_id));
    }
}

/// A fresh schema is well-formed.
pub proof fn lemma_init_wf()
    ensures
        wf(init_model()),
{
}

// ---------------------------------------------------------------------------
// Lookup is stable under changes that keep every key in place.
// ---------------------------------------------------------------------------

/// Two user tables with the same keys row for row agree on lookup.
pub proof fn lemma_find_user_same(users1: Seq<User>, users2: Seq<User>, id: i32)
    requires
        users1.len() == users2.len(),
        forall|i: int| 0 <= i < users1.len() ==> (#[trigger] users1[i]).id == users2[i].id,
    ensures
        find_user(users2, id) == find_user(users1, id),
{
    lemma_find_user(users1, id);
    lemma_find_user(users2, id);
    match find_user(users1, id) {
        Some(k) => {
            assert(users2[k].id == id);
            assert forall|j: int| 0 <= j < k implies users2[j].id != id by {
                assert(users1[j].id == users2[j].id);
            }
            lemma_find_user_at(users2, id, k);
        },
        None => {
            if find_user(users2, id) is Some {
                let k2 = find_user(users2, id).unwrap();
                assert(users1[k2].id == id);
            }
        },
    }
}

/// Two product tables with the same keys row for row agree on lookup.
pub proof fn lemma_find_product_same(products1: Seq<Product>, products2: Seq<Product>, id: i32)
    requires
        products1.len() == products2.len(),
        forall|i: int| 0 <= i < products1.len() ==> (#[trigger] products1[i]).id == products2[i].id,
    ensures
        find_product(products2, id) == find_product(products1, id),
{
    lemma_find_product(products1, id);
    lemma_find_product(products2, id);
    match find_product(products1, id) {
        Some(k) => {
            assert(products2[k].id == id);
            assert forall|j: int| 0 <= j < k implies products2[j].id != id by {
                assert(products1[j].id == products2[j].id);
            }
            lemma_find_product_at(products2, id, k);
        },
        None => {
            if find_product(products2, id) is Some {
                let k2 = find_product(products2, id).unwrap();
                assert(products1[k2].id == id);
            }
        },
    }
}

/// Two payment tables with the same keys row for row agree on lookup.
pub proof fn lemma_find_payment_same(payments1: Seq<Payment>, payments2: Seq<Payment>, id: i32)
    requires
        payments1.len() == payments2.len(),
        forall|i: int| 0 <= i < payments1.len() ==> (#[trigger] payments1[i]).id == payments2[i].id,
    ensures
        find_payment(payments2, id) == find_payment(payments1, id),
{
    lemma_find_payment(payments1, id);
    lemma_find_payment(payments2, id);
    match find_payment(payments1, id) {
        Some(k) => {
            assert(payments2[k].id == id);
            assert forall|j: int| 0 <= j < k implies payments2[j].id != id by {
                assert(payments1[j].id == payments2[j].id);
            }
            lemma_find_payment_at(payments2, id, k);
        },
        None => {
            if find_payment(payments2, id) is Some {
                let k2 = find_payment(payments2, id).unwrap();
                assert(payments1[k2].id == id);
            }
        },
    }
}

// ---------------------------------------------------------------------------
// The inserts preserve well-formedness.
// ---------------------------------------------------------------------------

/// Seeding a user keeps the store well-formed.
pub proof fn lemma_insert_user_wf(m: Model, name: String, email: String, balance: i32)
    requires
        wf(m),
        balance >= 0,
        m.next_user_id < i32::MAX,
    ensures
        wf(insert_user_tr(m, name, email, balance)),
{
    let m2 = insert_user_tr(m, name, email, balance);
    assert(forall|i: int| 0 <= i < m.users.len() ==> m2.users[i] == m.users[i]);
    assert forall|i: int| 0 <= i < m2.payments.len() implies payment_ok(
        #[trigger] m2.payments[i],
        m2.users,
        m2.products,
        m2.next_payment_id,
    ) by {
        assert(payment_ok(m.payments[i], m.users, m.products, m.next_payment_id));
        lemma_find_user(m.users, m.payments[i].user_id);
        let k = find_user(m.users, m.payments[i].user_id).unwrap();
        lemma_find_user_at(m2.users, m.payments[i].user_id, k);
    }
}

/// Seeding a product keeps the store well-formed.
pub proof fn lemma_insert_product_wf(m: Model, name: String, price: i32, stock: i32, discount: i32)
    requires
        wf(m),
        price >= 1,
        stock >= 0,
        m.next_product_id < i32::MAX,
    ensures
        wf(insert_product_tr(m, name, price, stock, discount)),
{
    let m2 = insert_product_tr(m, name, price, stock, discount);
    assert(forall|i: int| 0 <= i < m.products.len() ==> m2.products[i] == m.products[i]);
    assert forall|i: int| 0 <= i < m2.payments.len() implies payment_ok(
        #[trigger] m2.payments[i],
        m2.users,
        m2.products,
        m2.next_payment_id,
    ) by {
        assert(payment_ok(m.payments[i], m.users, m.products, m.next_payment_id));
        lemma_find_product(m.products, m.payments[i].product_id);
        let k = find_product(m.products, m.payments[i].product_id).unwrap();
        lemma_find_product_at(m2.products, m.payments[i].product_id, k);
    }
}

/// Publishing a payment — the pending row plus the task row the trigger
/// enqueues — keeps the store well-formed.
pub proof fn lemma_insert_payment_wf(
    m: Model,
    product_id: i32,
    user_id: i32,
    amount: i32,
    now: i64,
)
    requires
        wf(m),
        find_user(m.users, user_id) is Some,
        find_product(m.products, product_id) is Some,
        now >= 0,
        m.next_payment_id < i32::MAX,
        m.next_task_id < i32::MAX,
    ensures
        wf(insert_payment_tr(m, product_id, user_id, amount, now)),
{
    let m2 = insert_payment_tr(m, product_id, user_id, amount, now);
    let new_payment = m2.payments.last();
    assert(forall|i: int| 0 <= i < m.payments.len() ==> m2.payments[i] == m.payments[i]);
    assert(forall|i: int| 0 <= i < m.tasks.len() ==> m2.tasks[i] == m.tasks[i]);

    // Every payment row is still in order.
    assert forall|i: int| 0 <= i < m2.payments.len() implies payment_ok(
        #[trigger] m2.payments[i],
        m2.users,
        m2.products,
        m2.next_payment_id,
    ) by {
        if i < m.payments.len() {
            assert(payment_ok(m.payments[i], m.users, m.products, m.next_payment_id));
        }
    }

    // Old payment keys all lie below the fresh one.
    assert forall|i: int, j: int|
        0 <= i < j < m2.payments.len() implies m2.payments[i].id < m2.payments[j].id by {
        assert(payment_ok(m.payments[i], m.users, m.products, m.next_payment_id));
    }

    // The fresh payment is found at the end of the table.
    assert forall|j: int| 0 <= j < m.payments.len() implies m2.payments[j].id != new_payment.id by {
        assert(payment_ok(m.payments[j], m.users, m.products, m.next_payment_id));
    }
    lemma_find_payment_at(m2.payments, new_payment.id, m.payments.len() as int);

    // Every old task row is still in order: its payment is still found, at
    // the same row.
    assert forall|i: int| 0 <= i < m2.tasks.len() implies task_ok(
        #[trigger] m2.tasks[i],
        m2.payments,
        m2.next_task_id,
    ) by {
        if i < m.tasks.len() {
            assert(task_ok(m.tasks[i], m.payments, m.next_task_id));
            lemma_find_payment(m.payments, m.tasks[i].payment_id);
            let k = find_payment(m.payments, m.tasks[i].payment_id).unwrap();
            lemma_find_payment_at(m2.payments, m.tasks[i].payment_id, k);
        } else {
            assert(m2.tasks[i] == m2.tasks.last());
        }
    }

    // Old task keys all lie below the fresh one.
    assert forall|i: int, j: int|
        0 <= i < j < m2.tasks.len() implies m2.tasks[i].id < m2.tasks[j].id by {
        assert(task_ok(m.tasks[i], m.payments, m.next_task_id));
    }

    // At most one task per payment: every old task references an old
    // payment, whose key lies below the fresh payment's.
    assert forall|i: int, j: int|
        0 <= i < j < m2.tasks.len() implies (#[trigger] m2.tasks[i]).payment_id != (
    #[trigger] m2.tasks[j]).payment_id by {
        assert(task_ok(m.tasks[i], m.payments, m.next_task_id));
        if j == m2.tasks.len() - 1 {
            lemma_find_payment(m.payments, m.tasks[i].payment_id);
            let k = find_payment(m.payments, m.tasks[i].payment_id).unwrap();
            assert(payment_ok(m.payments[k], m.users, m.products, m.next_payment_id));
        } else {
            assert(task_ok(m.tasks[j], m.payments, m.next_task_id));
        }
    }
}

// ---------------------------------------------------------------------------
// The lease dispatcher preserves well-formedness, and never double-leases.
// ---------------------------------------------------------------------------

/// Leasing keeps the store well-formed.
pub proof fn lemma_next_wf(m: Model, now: i64)
    requires
        wf(m),
        now >= 0,
    ensures
        wf(next_tr(m, now)),
{
    lemma_selected(m.tasks, now);
    match selected(m.tasks, now) {
        None => {},
        Some(i) => {
            let m2 = next_tr(m, now);
            assert(forall|j: int|
                0 <= j < m.tasks.len() && j != i ==> m2.tasks[j] == m.tasks[j]);
            assert(eligible(m.tasks[i], now));
            assert forall|j: int| 0 <= j < m2.tasks.len() implies task_ok(
                #[trigger] m2.tasks[j],
                m2.payments,
                m2.next_task_id,
            ) by {
                assert(task_ok(m.tasks[j], m.payments, m.next_task_id));
            }
            assert forall|j: int, k: int|
                0 <= j < k < m2.tasks.len() implies m2.tasks[j].id < m2.tasks[k].id by {
                assert(m2.tasks[j].id == m.tasks[j].id);
                assert(m2.tasks[k].id == m.tasks[k].id);
            }
            assert forall|j: int, k: int|
                0 <= j < k < m2.tasks.len() implies (#[trigger] m2.tasks[j]).payment_id != (
            #[trigger] m2.tasks[k]).payment_id by {
                assert(m2.tasks[j].payment_id == m.tasks[j].payment_id);
                assert(m2.tasks[k].payment_id == m.tasks[k].payment_id);
                assert(m.tasks[j].payment_id != m.tasks[k].payment_id);
            }
        },
    }
}

/// Once `next` leases a row, that row stays ineligible for the whole lease
/// TTL: no other call of `next` within the window — from any worker — can
/// lease it again.
pub proof fn lemma_no_double_lease(m: Model, now1: i64, now2: i64)
    requires
        wf(m),
        now1 >= 0,
        next_ret(m, now1) is Some,
        now2 <= now1 + LEASE_TTL_MS,
    ensures
        ({
            let t = next_ret(m, now1).unwrap();
            let m2 = next_tr(m, now1);
            &&& find_task(m2.tasks, t.id) is Some
            &&& !eligible(m2.tasks[find_task(m2.tasks, t.id).unwrap()], now2)
            &&& (next_ret(m2, now2) matches Some(t2) ==> t2.id != t.id)
        }),
{
    lemma_selected(m.tasks, now1);
    let i = selected(m.tasks, now1).unwrap();
    let t = next_ret(m, now1).unwrap();
    let m2 = next_tr(m, now1);
    assert(t.id == m.tasks[i].id);
    assert(m2.tasks[i] == leased(m.tasks[i], now1));
    assert forall|j: int| 0 <= j < i implies m2.tasks[j].id != t.id by {
        assert(m.tasks[j].id < m.tasks[i].id);
    }
    lemma_find_task_at(m2.tasks, t.id, i);
    assert(m2.tasks[i].processing);
    assert(m2.tasks[i].updated_at == now1);
    assert(!eligible(m2.tasks[i], now2));
    lemma_selected(m2.tasks, now2);
    match selected(m2.tasks, now2) {
        None => {},
        Some(i2) => {
            assert(eligible(m2.tasks[i2], now2));
            assert(i2 != i);
            if i2 < i {
                assert(m2.tasks[i2].id == m.tasks[i2].id && m.tasks[i2].id < m.tasks[i].id);
            } else {
                assert(m2.tasks[i2].id == m.tasks[i2].id && m.tasks[i].id < m.tasks[i2].id);
            }
        },
    }
}

// ---------------------------------------------------------------------------
// The settlement executor preserves well-formedness.
// ---------------------------------------------------------------------------

proof fn lemma_reject_wf(m: Model, ti: int, pi: int, by_stock: bool, price: i32, balance: i32)
    requires
        wf(m),
        0 <= ti < m.tasks.len(),
        find_payment(m.payments, m.tasks[ti].payment_id) == Some(pi),
    ensures
        !by_stock ==> wf(reject_balance_tr(m, ti, pi, price, balance)),
        by_stock ==> wf(reject_stock_tr(m, ti, pi)),
{
    lemma_find_payment(m.payments, m.tasks[ti].payment_id);
    let m2 = if by_stock {
        reject_stock_tr(m, ti, pi)
    } else {
        reject_balance_tr(m, ti, pi, price, balance)
    };
    assert(m2.payments[pi].id == m.payments[pi].id);
    assert(forall|j: int| 0 <= j < m.payments.len() && j != pi ==> m2.payments[j] == m.payments[j]);
    assert(forall|j: int| 0 <= j < m.tasks.len() && j != ti ==> m2.tasks[j] == m.tasks[j]);
    assert(m2.tasks[ti].id == m.tasks[ti].id);
    assert(m2.tasks[ti].payment_id == m.tasks[ti].payment_id);

    assert forall|j: int| 0 <= j < m2.payments.len() implies payment_ok(
        #[trigger] m2.payments[j],
        m2.users,
        m2.products,
        m2.next_payment_id,
    ) by {
        assert(payment_ok(m.payments[j], m.users, m.products, m.next_payment_id));
    }
    assert forall|j: int, k: int|
        0 <= j < k < m2.payments.len() implies m2.payments[j].id < m2.payments[k].id by {
        assert(m2.payments[j].id == m.payments[j].id);
        assert(m2.payments[k].id == m.payments[k].id);
    }
    assert forall|j: int| 0 <= j < m2.tasks.len() implies task_ok(
        #[trigger] m2.tasks[j],
        m2.payments,
        m2.next_task_id,
    ) by {
        assert(task_ok(m.tasks[j], m.payments, m.next_task_id));
        assert(forall|x: int|
            0 <= x < m.payments.len() ==> (#[trigger] m.payments[x]).id == m2.payments[x].id);
        lemma_find_payment(m.payments, m.tasks[j].payment_id);
        lemma_find_payment_same(m.payments, m2.payments, m.tasks[j].payment_id);
        assert(m2.tasks[j].payment_id == m.tasks[j].payment_id);
        let k = find_payment(m.payments, m.tasks[j].payment_id).unwrap();
        if k == pi {
            assert(m2.payments[k].status == PaymentStatus::Rejected);
        } else {
            assert(m2.payments[k] == m.payments[k]);
        }
    }
    assert forall|j: int, k: int|
        0 <= j < k < m2.tasks.len() implies m2.tasks[j].id < m2.tasks[k].id by {
        assert(m2.tasks[j].id == m.tasks[j].id);
        assert(m2.tasks[k].id == m.tasks[k].id);
    }
    assert forall|j: int, k: int|
        0 <= j < k < m2.tasks.len() implies (#[trigger] m2.tasks[j]).payment_id != (
    #[trigger] m2.tasks[k]).payment_id by {
        assert(m2.tasks[j].payment_id == m.tasks[j].payment_id);
        assert(m2.tasks[k].payment_id == m.tasks[k].payment_id);
        assert(m.tasks[j].payment_id != m.tasks[k].payment_id);
    }
}

proof fn lemma_accept_wf(m: Model, ti: int, pi: int, ui: int, gi: int, new_balance: i32)
    requires
        wf(m),
        0 <= ti < m.tasks.len(),
        find_payment(m.payments, m.tasks[ti].payment_id) == Some(pi),
        find_user(m.users, m.payments[pi].user_id) == Some(ui),
        find_product(m.products, m.payments[pi].product_id) == Some(gi),
        spec_decide(m.users[ui].balance, m.products[gi].price, m.products[gi].stock)
            == (Decision::Accept { new_balance }),
    ensures
        wf(accept_tr(m, ti, pi, ui, gi, new_balance)),
{
    lemma_find_payment(m.payments, m.tasks[ti].payment_id);
    lemma_find_user(m.users, m.payments[pi].user_id);
    lemma_find_product(m.products, m.payments[pi].product_id);
    let m2 = accept_tr(m, ti, pi, ui, gi, new_balance);
    assert(task_ok(m.tasks[ti], m.payments, m.next_task_id));
    assert(user_ok(m.users[ui], m.next_user_id));
    assert(product_ok(m.products[gi], m.next_product_id));
    assert(new_balance == m.users[ui].balance - m.products[gi].price);
    assert(m.products[gi].stock >= 1);

    m.tasks.remove_ensures(ti);
    assert(forall|x: int| 0 <= x < m.users.len() ==> (#[trigger] m2.users[x]).id == m.users[x].id);
    assert(forall|x: int|
        0 <= x < m.products.len() ==> (#[trigger] m2.products[x]).id == m.products[x].id);
    assert(forall|x: int|
        0 <= x < m.payments.len() ==> (#[trigger] m.payments[x]).id == m2.payments[x].id);

    // users and products stay in order.
    assert forall|j: int| 0 <= j < m2.users.len() implies user_ok(
        #[trigger] m2.users[j],
        m2.next_user_id,
    ) by {
        assert(user_ok(m.users[j], m.next_user_id));
    }
    assert forall|j: int, k: int|
        0 <= j < k < m2.users.len() implies m2.users[j].id < m2.users[k].id by {
        assert(m2.users[j].id == m.users[j].id);
        assert(m2.users[k].id == m.users[k].id);
    }
    assert forall|j: int| 0 <= j < m2.products.len() implies product_ok(
        #[trigger] m2.products[j],
        m2.next_product_id,
    ) by {
        assert(product_ok(m.products[j], m.next_product_id));
    }
    assert forall|j: int, k: int|
        0 <= j < k < m2.products.len() implies m2.products[j].id < m2.products[k].id by {
        assert(m2.products[j].id == m.products[j].id);
        assert(m2.products[k].id == m.products[k].id);
    }

    // payments stay in order: their referents still resolve.
    assert forall|j: int| 0 <= j < m2.payments.len() implies payment_ok(
        #[trigger] m2.payments[j],
        m2.users,
        m2.products,
        m2.next_payment_id,
    ) by {
        assert(payment_ok(m.payments[j], m.users, m.products, m.next_payment_id));
        lemma_find_user_same(m.users, m2.users, m.payments[j].user_id);
        lemma_find_product_same(m.products, m2.products, m.payments[j].product_id);
        assert(m2.payments[j].user_id == m.payments[j].user_id);
        assert(m2.payments[j].product_id == m.payments[j].product_id);
    }
    assert forall|j: int, k: int|
        0 <= j < k < m2.payments.len() implies m2.payments[j].id < m2.payments[k].id by {
        assert(m2.payments[j].id == m.payments[j].id);
        assert(m2.payments[k].id == m.payments[k].id);
    }

    // The settled payment's task row is gone; every other task row still
    // references an unsettled payment, because a payment has at most one
    // task row.
    assert forall|j: int| 0 <= j < m2.tasks.len() implies task_ok(
        #[trigger] m2.tasks[j],
        m2.payments,
        m2.next_task_id,
    ) by {
        let j0 = if j < ti {
            j
        } else {
            j + 1
        };
        assert(m2.tasks[j] == m.tasks[j0]);
        assert(task_ok(m.tasks[j0], m.payments, m.next_task_id));
        lemma_find_payment(m.payments, m.tasks[j0].payment_id);
        lemma_find_payment_same(m.payments, m2.payments, m.tasks[j0].payment_id);
        let k = find_payment(m.payments, m.tasks[j0].payment_id).unwrap();
        if k == pi {
            assert(m.payments[pi].id == m.tasks[ti].payment_id);
            assert(m.payments[k].id == m.tasks[j0].payment_id);
            if j0 < ti {
                assert(m.tasks[j0].payment_id != m.tasks[ti].payment_id);
            } else {
                assert(m.tasks[ti].payment_id != m.tasks[j0].payment_id);
            }
            assert(false);
        } else {
            assert(m2.payments[k] == m.payments[k]);
        }
    }
    assert forall|j: int, k: int|
        0 <= j < k < m2.tasks.len() implies m2.tasks[j].id < m2.tasks[k].id by {
        let j0 = if j < ti {
            j
        } else {
            j + 1
        };
        let k0 = if k < ti {
            k
        } else {
            k + 1
        };
        assert(m2.tasks[j] == m.tasks[j0]);
        assert(m2.tasks[k] == m.tasks[k0]);
    }
    assert forall|j: int, k: int|
        0 <= j < k < m2.tasks.len() implies (#[trigger] m2.tasks[j]).payment_id != (
    #[trigger] m2.tasks[k]).payment_id by {
        let j0 = if j < ti {
            j
        } else {
            j + 1
        };
        let k0 = if k < ti {
            k
        } else {
            k + 1
        };
        assert(m2.tasks[j] == m.tasks[j0]);
        assert(m2.tasks[k] == m.tasks[k0]);
        assert(m.tasks[j0].payment_id != m.tasks[k0].payment_id);
    }
}

/// A settlement attempt keeps the store well-formed, whatever its outcome.
pub proof fn lemma_perform_wf(m: Model, task_id: i32)
    requires
        wf(m),
    ensures
        wf(perform_tr(m, task_id).0),
{
    lemma_find_task(m.tasks, task_id);
    match find_task(m.tasks, task_id) {
        None => {},
        Some(ti) => {
            let t = m.tasks[ti];
            match find_payment(m.payments, t.payment_id) {
                None => {},
                Some(pi) => {
                    lemma_find_payment(m.payments, t.payment_id);
                    let p = m.payments[pi];
                    match find_user(m.users, p.user_id) {
                        None => {},
                        Some(ui) => {
                            match find_product(m.products, p.product_id) {
                                None => {},
                                Some(gi) => {
                                    lemma_find_user(m.users, p.user_id);
                                    lemma_find_product(m.products, p.product_id);
                                    assert(user_ok(m.users[ui], m.next_user_id));
                                    assert(product_ok(m.products[gi], m.next_product_id));
                                    match spec_decide(
                                        m.users[ui].balance,
                                        m.products[gi].price,
                                        m.products[gi].stock,
                                    ) {
                                        Decision::Accept { new_balance } => {
                                            lemma_accept_wf(m, ti, pi, ui, gi, new_balance);
                                        },
                                        Decision::RejectBalance { price, balance } => {
                                            lemma_reject_wf(m, ti, pi, false, price, balance);
                                        },
                                        Decision::RejectStock => {
                                            lemma_reject_wf(m, ti, pi, true, 0, 0);
                                        },
                                    }
                                },
                            }
                        },
                    }
                },
            }
        },
    }
}

// ---------------------------------------------------------------------------
// Conservation: what settlement moves, and what it keeps.
// ---------------------------------------------------------------------------

/// Sum of every buyer's balance.
pub open spec fn total_balance(users: Seq<User>) -> int
    decreases users.len(),
{
    if users.len() == 0 {
        0
    } else {
        total_balance(users.drop_last()) + users.last().balance
    }
}

/// The listed price of a product, zero where no such row exists.
pub open spec fn price_of(products: Seq<Product>, pid: i32) -> int {
    match find_product(products, pid) {
        Some(i) => products[i].price as int,
        None => 0,
    }
}

/// What a payment contributes to the value of accepted payments.
pub open spec fn payment_value(p: Payment, products: Seq<Product>) -> int {
    if p.status is Accepted {
        price_of(products, p.product_id)
    } else {
        0
    }
}

/// Sum of the product prices over all accepted payments.
pub open spec fn accepted_value(payments: Seq<Payment>, products: Seq<Product>) -> int
    decreases payments.len(),
{
    if payments.len() == 0 {
        0
    } else {
        accepted_value(payments.drop_last(), products) + payment_value(payments.last(), products)
    }
}

/// The settlement conservation quantity: money in balances plus money
/// collected by accepted payments.
pub open spec fn conserved_total(m: Model) -> int {
    total_balance(m.users) + accepted_value(m.payments, m.products)
}

/// A product's stock on hand, zero where no such row exists.
pub open spec fn stock_of(products: Seq<Product>, pid: i32) -> int {
    match find_product(products, pid) {
        Some(i) => products[i].stock as int,
        None => 0,
    }
}

/// What a payment contributes to a product's accepted count.
pub open spec fn count_contrib(p: Payment, pid: i32) -> int {
    if p.status is Accepted && p.product_id == pid {
        1
    } else {
        0
    }
}

/// How many accepted payments reference the product.
pub open spec fn accepted_count(payments: Seq<Payment>, pid: i32) -> int
    decreases payments.len(),
{
    if payments.len() == 0 {
        0
    } else {
        accepted_count(payments.drop_last(), pid) + count_contrib(payments.last(), pid)
    }
}

/// The stock conservation quantity of one product: units on hand plus
/// units sold to accepted payments.
pub open spec fn conserved_stock(m: Model, pid: i32) -> int {
    stock_of(m.products, pid) + accepted_count(m.payments, pid)
}

proof fn lemma_total_balance_update(users: Seq<User>, i: int, u: User)
    requires
        0 <= i < users.len(),
    ensures
        total_balance(users.update(i, u)) == total_balance(users) - users[i].balance + u.balance,
    decreases users.len(),
{
    let s2 = users.update(i, u);
    if i == users.len() - 1 {
        assert(s2.drop_last() =~= users.drop_last());
        assert(s2.last() == u);
    } else {
        lemma_total_balance_update(users.drop_last(), i, u);
        assert(s2.drop_last() =~= users.drop_last().update(i, u));
        assert(s2.last() == users.last());
        assert(users.drop_last()[i] == users[i]);
    }
}

proof fn lemma_accepted_value_update(
    payments: Seq<Payment>,
    products: Seq<Product>,
    i: int,
    p: Payment,
)
    requires
        0 <= i < payments.len(),
    ensures
        accepted_value(payments.update(i, p), products) == accepted_value(payments, products)
            - payment_value(payments[i], products) + payment_value(p, products),
    decreases payments.len(),
{
    let s2 = payments.update(i, p);
    if i == payments.len() - 1 {
        assert(s2.drop_last() =~= payments.drop_last());
        assert(s2.last() == p);
    } else {
        lemma_accepted_value_update(payments.drop_last(), products, i, p);
        assert(s2.drop_last() =~= payments.drop_last().update(i, p));
        assert(s2.last() == payments.last());
        assert(payments.drop_last()[i] == payments[i]);
    }
}

proof fn lemma_accepted_count_update(payments: Seq<Payment>, i: int, p: Payment, pid: i32)
    requires
        0 <= i < payments.len(),
    ensures
        accepted_count(payments.update(i, p), pid) == accepted_count(payments, pid)
            - count_contrib(payments[i], pid) + count_contrib(p, pid),
    decreases payments.len(),
{
    let s2 = payments.update(i, p);
    if i == payments.len() - 1 {
        assert(s2.drop_last() =~= payments.drop_last());
        assert(s2.last() == p);
    } else {
        lemma_accepted_count_update(payments.drop_last(), i, p, pid);
        assert(s2.drop_last() =~= payments.drop_last().update(i, p));
        assert(s2.last() == payments.last());
        assert(payments.drop_last()[i] == payments[i]);
    }
}

proof fn lemma_price_of_update(products: Seq<Product>, gi: int, g2: Product)
    requires
        0 <= gi < products.len(),
        g2.id == products[gi].id,
        g2.price == products[gi].price,
    ensures
        forall|pid: i32| #[trigger] price_of(products.update(gi, g2), pid) == price_of(
            products,
            pid,
        ),
{
    let s2 = products.update(gi, g2);
    assert forall|pid: i32| #[trigger] price_of(s2, pid) == price_of(products, pid) by {
        assert(forall|x: int| 0 <= x < products.len() ==> (#[trigger] products[x]).id == s2[x].id);
        lemma_find_product_same(products, s2, pid);
        lemma_find_product(products, pid);
        match find_product(products, pid) {
            Some(k) => {
                if k != gi {
                    assert(s2[k] == products[k]);
                }
            },
            None => {},
        }
    }
}

proof fn lemma_stock_of_update(products: Seq<Product>, gi: int, g2: Product, pid: i32)
    requires
        0 <= gi < products.len(),
        g2.id == products[gi].id,
    ensures
        stock_of(products.update(gi, g2), pid) == (if find_product(products, pid) == Some(gi) {
            stock_of(products, pid) - products[gi].stock + g2.stock
        } else {
            stock_of(products, pid)
        }),
{
    let s2 = products.update(gi, g2);
    assert(forall|x: int| 0 <= x < products.len() ==> (#[trigger] products[x]).id == s2[x].id);
    lemma_find_product_same(products, s2, pid);
    lemma_find_product(products, pid);
    match find_product(products, pid) {
        Some(k) => {
            if k != gi {
                assert(s2[k] == products[k]);
            }
        },
        None => {},
    }
}

proof fn lemma_accepted_value_products(
    payments: Seq<Payment>,
    products1: Seq<Product>,
    products2: Seq<Product>,
)
    requires
        forall|pid: i32| #[trigger] price_of(products2, pid) == price_of(products1, pid),
    ensures
        accepted_value(payments, products2) == accepted_value(payments, products1),
    decreases payments.len(),
{
    if payments.len() > 0 {
        lemma_accepted_value_products(payments.drop_last(), products1, products2);
        assert(price_of(products2, payments.last().product_id) == price_of(
            products1,
            payments.last().product_id,
        ));
    }
}

/// A lease moves no money and no stock: only task bookkeeping changes.
pub proof fn lemma_next_conserves(m: Model, now: i64)
    ensures
        conserved_total(next_tr(m, now)) == conserved_total(m),
        forall|pid: i32| #[trigger] conserved_stock(next_tr(m, now), pid) == conserved_stock(
            m,
            pid,
        ),
{
}

/// Money conservation, one settlement step: the sum of all balances plus
/// the sum of product prices over accepted payments is unchanged — every
/// debit from a buyer's balance is the price of a payment then accepted.
pub proof fn lemma_perform_conserves(m: Model, task_id: i32)
    requires
        wf(m),
    ensures
        conserved_total(perform_tr(m, task_id).0) == conserved_total(m),
{
    lemma_find_task(m.tasks, task_id);
    match find_task(m.tasks, task_id) {
        None => {},
        Some(ti) => {
            let t = m.tasks[ti];
            assert(task_ok(t, m.payments, m.next_task_id));
            match find_payment(m.payments, t.payment_id) {
                None => {},
                Some(pi) => {
                    lemma_find_payment(m.payments, t.payment_id);
                    let p = m.payments[pi];
                    assert(p.status != PaymentStatus::Accepted);
                    match find_user(m.users, p.user_id) {
                        None => {},
                        Some(ui) => {
                            match find_product(m.products, p.product_id) {
                                None => {},
                                Some(gi) => {
                                    lemma_find_user(m.users, p.user_id);
                                    lemma_find_product(m.products, p.product_id);
                                    assert(user_ok(m.users[ui], m.next_user_id));
                                    assert(product_ok(m.products[gi], m.next_product_id));
                                    let u = m.users[ui];
                                    let g = m.products[gi];
                                    match spec_decide(u.balance, g.price, g.stock) {
                                        Decision::Accept { new_balance } => {
                                            let m2 = accept_tr(m, ti, pi, ui, gi, new_balance);
                                            let p2 = Payment {
                                                status: PaymentStatus::Accepted,
                                                ..p
                                            };
                                            lemma_total_balance_update(
                                                m.users,
                                                ui,
                                                User { balance: new_balance, ..u },
                                            );
                                            lemma_price_of_update(
                                                m.products,
                                                gi,
                                                Product { stock: (g.stock - 1) as i32, ..g },
                                            );
                                            lemma_accepted_value_products(
                                                m2.payments,
                                                m.products,
                                                m2.products,
                                            );
                                            lemma_accepted_value_update(
                                                m.payments,
                                                m.products,
                                                pi,
                                                p2,
                                            );
                                            assert(payment_value(p, m.products) == 0);
                                            assert(payment_value(p2, m.products) == g.price);
                                            assert(new_balance == u.balance - g.price);
                                        },
                                        Decision::RejectBalance { price, balance } => {
                                            let p2 = Payment {
                                                status: PaymentStatus::Rejected,
                                                ..p
                                            };
                                            lemma_accepted_value_update(
                                                m.payments,
                                                m.products,
                                                pi,
                                                p2,
                                            );
                                            assert(payment_value(p, m.products) == 0);
                                            assert(payment_value(p2, m.products) == 0);
                                        },
                                        Decision::RejectStock => {
                                            let p2 = Payment {
                                                status: PaymentStatus::Rejected,
                                                ..p
                                            };
                                            lemma_accepted_value_update(
                                                m.payments,
                                                m.products,
                                                pi,
                                                p2,
                                            );
                                            assert(payment_value(p, m.products) == 0);
                                            assert(payment_value(p2, m.products) == 0);
                                        },
                                    }
                                },
                            }
                        },
                    }
                },
            }
        },
    }
}

/// Stock conservation, one settlement step: for every product, units on
/// hand plus accepted payments referencing it is unchanged — each stock
/// decrement matches exactly one newly accepted payment.
pub proof fn lemma_perform_conserves_stock(m: Model, task_id: i32, pid: i32)
    requires
        wf(m),
    ensures
        conserved_stock(perform_tr(m, task_id).0, pid) == conserved_stock(m, pid),
{
    lemma_find_task(m.tasks, task_id);
    match find_task(m.tasks, task_id) {
        None => {},
        Some(ti) => {
            let t = m.tasks[ti];
            assert(task_ok(t, m.payments, m.next_task_id));
            match find_payment(m.payments, t.payment_id) {
                None => {},
                Some(pi) => {
                    lemma_find_payment(m.payments, t.payment_id);
                    let p = m.payments[pi];
                    assert(p.status != PaymentStatus::Accepted);
                    match find_user(m.users, p.user_id) {
                        None => {},
                        Some(ui) => {
                            match find_product(m.products, p.product_id) {
                                None => {},
                                Some(gi) => {
                                    lemma_find_user(m.users, p.user_id);
                                    lemma_find_product(m.products, p.product_id);
                                    let u = m.users[ui];
                                    let g = m.products[gi];
                                    match spec_decide(u.balance, g.price, g.stock) {
                                        Decision::Accept { new_balance } => {
                                            let p2 = Payment {
                                                status: PaymentStatus::Accepted,
                                                ..p
                                            };
                                            let g2 = Product { stock: (g.stock - 1) as i32, ..g };
                                            lemma_stock_of_update(m.products, gi, g2, pid);
                                            lemma_accepted_count_update(m.payments, pi, p2, pid);
                                            assert(count_contrib(p, pid) == 0);
                                            if pid == p.product_id {
                                                assert(find_product(m.products, pid) == Some(gi));
                                                assert(count_contrib(p2, pid) == 1);
                                            } else {
                                                lemma_find_product(m.products, pid);
                                                if find_product(m.products, pid) == Some(gi) {
                                                    assert(m.products[gi].id == pid);
                                                    assert(m.products[gi].id == p.product_id);
                                                    assert(false);
                                                }
                                                assert(count_contrib(p2, pid) == 0);
                                            }
                                        },
                                        Decision::RejectBalance { price, balance } => {
                                            let p2 = Payment {
                                                status: PaymentStatus::Rejected,
                                                ..p
                                            };
                                            lemma_accepted_count_update(m.payments, pi, p2, pid);
                                        },
                                        Decision::RejectStock => {
                                            let p2 = Payment {
                                                status: PaymentStatus::Rejected,
                                                ..p
                                            };
                                            lemma_accepted_count_update(m.payments, pi, p2, pid);
                                        },
                                    }
                                },
                            }
                        },
                    }
                },
            }
        },
    }
}

// ---------------------------------------------------------------------------
// Whole histories: any sequence of operations.
// ---------------------------------------------------------------------------

/// One operation of the system, as it reaches the store.
pub enum Op {
    InsertUser { name: String, email: String, balance: i32 },
    InsertProduct { name: String, price: i32, stock: i32, discount: i32 },
    InsertPayment { product_id: i32, user_id: i32, amount: i32, now: i64 },
    Lease { now: i64 },
    Settle { task_id: i32 },
}

/// The argument bounds under which an operation is admitted: non-negative
/// seed quantities and a non-negative clock.
pub open spec fn op_ok(op: Op) -> bool {
    match op {
        Op::InsertUser { balance, .. } => balance >= 0,
        Op::InsertProduct { price, stock, .. } => price >= 1 && stock >= 0,
        Op::InsertPayment { now, .. } => now >= 0,
        Op::Lease { now } => now >= 0,
        Op::Settle { .. } => true,
    }
}

/// Whether an operation only leases or settles.
pub open spec fn is_queue_op(op: Op) -> bool {
    op is Lease || op is Settle
}

/// What an operation does to the store. An insert that the schema refuses —
/// a missing foreign key — or that has exhausted its serial keys leaves the
/// store unchanged.
pub open spec fn apply_op(m: Model, op: Op) -> Model {
    match op {
        Op::InsertUser { name, email, balance } => if m.next_user_id < i32::MAX {
            insert_user_tr(m, name, email, balance)
        } else {
            m
        },
        Op::InsertProduct { name, price, stock, discount } => if m.next_product_id < i32::MAX {
            insert_product_tr(m, name, price, stock, discount)
        } else {
            m
        },
        Op::InsertPayment { product_id, user_id, amount, now } => if m.next_payment_id < i32::MAX
            && m.next_task_id < i32::MAX && find_user(m.users, user_id) is Some && find_product(
            m.products,
            product_id,
        ) is Some {
            insert_payment_tr(m, product_id, user_id, amount, now)
        } else {
            m
        },
        Op::Lease { now } => next_tr(m, now),
        Op::Settle { task_id } => perform_tr(m, task_id).0,
    }
}

/// The store after a sequence of operations.
pub open spec fn run(m: Model, ops: Seq<Op>) -> Model
    decreases ops.len(),
{
    if ops.len() == 0 {
        m
    } else {
        apply_op(run(m, ops.drop_last()), ops.last())
    }
}

/// Any admitted operation keeps the store well-formed.
pub proof fn lemma_op_wf(m: Model, op: Op)
    requires
        wf(m),
        op_ok(op),
    ensures
        wf(apply_op(m, op)),
{
    match op {
        Op::InsertUser { name, email, balance } => {
            if m.next_user_id < i32::MAX {
                lemma_insert_user_wf(m, name, email, balance);
            }
        },
        Op::InsertProduct { name, price, stock, discount } => {
            if m.next_product_id < i32::MAX {
                lemma_insert_product_wf(m, name, price, stock, discount);
            }
        },
        Op::InsertPayment { product_id, user_id, amount, now } => {
            if m.next_payment_id < i32::MAX && m.next_task_id < i32::MAX && find_user(
                m.users,
                user_id,
            ) is Some && find_product(m.products, product_id) is Some {
                lemma_insert_payment_wf(m, product_id, user_id, amount, now);
            }
        },
        Op::Lease { now } => {
            lemma_next_wf(m, now);
        },
        Op::Settle { task_id } => {
            lemma_perform_wf(m, task_id);
        },
    }
}

/// After any sequence of admitted operations the store is still
/// well-formed — so every task row references a payment row, no accepted
/// payment keeps a task row, every dead-lettered task belongs to a settled
/// payment, and balances, stock and tries are non-negative throughout.
pub proof fn lemma_run_wf(m: Model, ops: Seq<Op>)
    requires
        wf(m),
        forall|i: int| 0 <= i < ops.len() ==> op_ok(#[trigger] ops[i]),
    ensures
        wf(run(m, ops)),
    decreases ops.len(),
{
    if ops.len() > 0 {
        assert(forall|i: int| 0 <= i < ops.len() - 1 ==> ops.drop_last()[i] == ops[i]);
        lemma_run_wf(m, ops.drop_last());
        lemma_op_wf(run(m, ops.drop_last()), ops.last());
    }
}

/// Conservation over any interleaving of leases and settlements (what the
/// store's row locks serialise, the model runs in some order): the money
/// debited from balances equals the prices of the payments accepted, and
/// every product's stock decrements equal its newly accepted payments.
pub proof fn lemma_run_conserves(m: Model, ops: Seq<Op>, pid: i32)
    requires
        wf(m),
        forall|i: int| 0 <= i < ops.len() ==> op_ok(#[trigger] ops[i]),
        forall|i: int| 0 <= i < ops.len() ==> is_queue_op(#[trigger] ops[i]),
    ensures
        wf(run(m, ops)),
        conserved_total(run(m, ops)) == conserved_total(m),
        conserved_stock(run(m, ops), pid) == conserved_stock(m, pid),
    decreases ops.len(),
{
    if ops.len() > 0 {
        assert(forall|i: int| 0 <= i < ops.len() - 1 ==> ops.drop_last()[i] == ops[i]);
        lemma_run_conserves(m, ops.drop_last(), pid);
        let mp = run(m, ops.drop_last());
        lemma_op_wf(mp, ops.last());
        match ops.last() {
            Op::Lease { now } => {
                lemma_next_conserves(mp, now);
            },
            Op::Settle { task_id } => {
                lemma_perform_conserves(mp, task_id);
                lemma_perform_conserves_stock(mp, task_id, pid);
            },
            _ => {
                assert(false);
            },
        }
    }
}

// ---------------------------------------------------------------------------
// Retries settle deterministically.
// ---------------------------------------------------------------------------

/// A settlement reads nothing of its task row but the payment it
/// references: two attempts against task rows carrying the same payment,
/// from stores that agree on the domain tables, decide alike and leave the
/// domain tables alike.
pub proof fn lemma_settle_ignores_bookkeeping(m1: Model, m2: Model, tid1: i32, tid2: i32)
    requires
        m1.users == m2.users,
        m1.products == m2.products,
        m1.payments == m2.payments,
        find_task(m1.tasks, tid1) is Some,
        find_task(m2.tasks, tid2) is Some,
        m1.tasks[find_task(m1.tasks, tid1).unwrap()].payment_id == m2.tasks[find_task(
            m2.tasks,
            tid2,
        ).unwrap()].payment_id,
    ensures
        perform_tr(m1, tid1).1 == perform_tr(m2, tid2).1,
        perform_tr(m1, tid1).0.users == perform_tr(m2, tid2).0.users,
        perform_tr(m1, tid1).0.products == perform_tr(m2, tid2).0.products,
        perform_tr(m1, tid1).0.payments == perform_tr(m2, tid2).0.payments,
{
    lemma_find_task(m1.tasks, tid1);
    lemma_find_task(m2.tasks, tid2);
    let t1 = m1.tasks[find_task(m1.tasks, tid1).unwrap()];
    let t2 = m2.tasks[find_task(m2.tasks, tid2).unwrap()];
    assert(t1.payment_id == t2.payment_id);
}

/// Re-running a settlement after a rolled-back attempt: once the first
/// lease's TTL has passed and the same row is leased again, the retry
/// decides as the interrupted attempt would have, and leaves users,
/// products and payments exactly as an uninterrupted run — only the task
/// row's bookkeeping (one more try spent, a fresher lease stamp) differs.
pub proof fn lemma_rollback_retry(m: Model, now1: i64, now2: i64)
    requires
        wf(m),
        now1 >= 0,
        now2 >= 0,
        next_ret(m, now1) is Some,
    ensures
        ({
            let t = next_ret(m, now1).unwrap();
            let m1 = next_tr(m, now1);
            let m2 = next_tr(m1, now2);
            (next_ret(m1, now2) matches Some(t2) && t2.id == t.id) ==> {
                &&& perform_tr(m2, t.id).1 == perform_tr(m1, t.id).1
                &&& perform_tr(m2, t.id).0.users == perform_tr(m1, t.id).0.users
                &&& perform_tr(m2, t.id).0.products == perform_tr(m1, t.id).0.products
                &&& perform_tr(m2, t.id).0.payments == perform_tr(m1, t.id).0.payments
            }
        }),
{
    lemma_selected(m.tasks, now1);
    let i = selected(m.tasks, now1).unwrap();
    let t = next_ret(m, now1).unwrap();
    let m1 = next_tr(m, now1);
    let m2 = next_tr(m1, now2);
    assert(t.id == m.tasks[i].id);
    assert forall|j: int| 0 <= j < i implies m1.tasks[j].id != t.id by {
        assert(m.tasks[j].id < m.tasks[i].id);
    }
    lemma_find_task_at(m1.tasks, t.id, i);
    lemma_selected(m1.tasks, now2);
    match selected(m1.tasks, now2) {
        None => {},
        Some(i2) => {
            let t2 = next_ret(m1, now2).unwrap();
            if t2.id == t.id {
                assert(m1.tasks[i2].id == t.id);
                if i2 != i {
                    if i2 < i {
                        assert(m.tasks[i2].id < m.tasks[i].id);
                    } else {
                        assert(m.tasks[i].id < m.tasks[i2].id);
                    }
                    assert(false);
                }
                assert forall|j: int| 0 <= j < i implies m2.tasks[j].id != t.id by {
                    assert(m.tasks[j].id < m.tasks[i].id);
                }
                lemma_find_task_at(m2.tasks, t.id, i);
                assert(m2.tasks[i].payment_id == m1.tasks[i].payment_id);
                lemma_settle_ignores_bookkeeping(m1, m2, t.id, t.id);
            }
        },
    }
}

} // verus!
