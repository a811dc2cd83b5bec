//! The settlement executor: one attempt against a leased task.
//!
//! An attempt reads the payment, its buyer and its product, decides, and
//! commits one of three consistent final states: accept (debit, take stock,
//! mark accepted, drop the task row), reject by balance (mark rejected,
//! record the shortfall, keep the task for its remaining tries), or reject
//! by stock (mark rejected, record it, terminate the task). Each outcome is
//! a single transition: all of its writes commit together.

use vstd::prelude::*;

use crate::model::{spec_decide, decide, Decision, Payment, PaymentStatus, PaymentTask, Product, TaskError, User};
use crate::store::{
    find_payment, find_product, find_task, find_user, find_payment_idx, find_product_idx,
    find_task_idx, find_user_idx, product_ok, user_ok, wf, Model, Store,
};

verus! {

/// Why a settlement attempt could not run: its task row vanished, or a
/// referent of the payment is missing. The attempt then changes nothing;
/// the lease is left to expire and the task to be retried.
#[derive(Clone, Copy, PartialEq, Eq, Structural, Debug)]
pub enum SettleError {
    NoSuchTask,
    MissingPayment,
    MissingUser,
    MissingProduct,
}

/// The accept outcome: debit the buyer, take one unit of stock, mark the
/// payment accepted, and delete the task row — atomically.
pub open spec fn accept_tr(m: Model, ti: int, pi: int, ui: int, gi: int, new_balance: i32) -> Model {
    Model {
        users: m.users.update(ui, User { balance: new_balance, ..m.users[ui] }),
        payments: m.payments.update(
            pi,
            Payment { status: PaymentStatus::Accepted, ..m.payments[pi] },
        ),
        products: m.products.update(
            gi,
            Product { stock: (m.products[gi].stock - 1) as i32, ..m.products[gi] },
        ),
        tasks: m.tasks.remove(ti),
        ..m
    }
}

/// The reject-by-balance outcome: mark the payment rejected and record the
/// shortfall on the task row, which keeps its remaining tries.
pub open spec fn reject_balance_tr(m: Model, ti: int, pi: int, price: i32, balance: i32) -> Model {
    Model {
        tasks: m.tasks.update(
            ti,
            PaymentTask {
                error: Some(TaskError::InsufficientBalance { price, balance }),
                ..m.tasks[ti]
            },
        ),
        payments: m.payments.update(
            pi,
            Payment { status: PaymentStatus::Rejected, ..m.payments[pi] },
        ),
        ..m
    }
}

/// The reject-by-stock outcome: mark the payment rejected, record the empty
/// stock, and terminate the task by zeroing its tries.
pub open spec fn reject_stock_tr(m: Model, ti: int, pi: int) -> Model {
    Model {
        tasks: m.tasks.update(
            ti,
            PaymentTask { error: Some(TaskError::OutOfStock), tries_left: 0, ..m.tasks[ti] },
        ),
        payments: m.payments.update(
            pi,
            Payment { status: PaymentStatus::Rejected, ..m.payments[pi] },
        ),
        ..m
    }
}

/// What one settlement attempt does to the store, and what it reports.
pub open spec fn perform_tr(m: Model, task_id: i32) -> (Model, Result<Decision, SettleError>) {
    match find_task(m.tasks, task_id) {
        None => (m, Err(SettleError::NoSuchTask)),
        Some(ti) => match find_payment(m.payments, m.tasks[ti].payment_id) {
            None => (m, Err(SettleError::MissingPayment)),
            Some(pi) => match find_user(m.users, m.payments[pi].user_id) {
                None => (m, Err(SettleError::MissingUser)),
                Some(ui) => match find_product(m.products, m.payments[pi].product_id) {
                    None => (m, Err(SettleError::MissingProduct)),
                    Some(gi) => match spec_decide(
                        m.users[ui].balance,
                        m.products[gi].price,
                        m.products[gi].stock,
                    ) {
                        Decision::Accept { new_balance } => (
                            accept_tr(m, ti, pi, ui, gi, new_balance),
                            Ok(Decision::Accept { new_balance }),
                        ),
                        Decision::RejectBalance { price, balance } => (
                            reject_balance_tr(m, ti, pi, price, balance),
                            Ok(Decision::RejectBalance { price, balance }),
                        ),
                        Decision::RejectStock => (
                            reject_stock_tr(m, ti, pi),
                            Ok(Decision::RejectStock),
                        ),
                    },
                },
            },
        },
    }
}

impl Store {
    /// One settlement attempt against the task row with the given key.
    ///
    /// Succeeds with the decision taken — and commits exactly that
    /// outcome's writes — whenever the task row and the payment's referents
    /// exist; reports the missing row, and changes nothing, otherwise.
    pub fn perform(&mut self, task_id: i32) -> (r: Result<Decision, SettleError>)
        requires
            wf(old(self)@),
        ensures
            final(self)@ == perform_tr(old(self)@, task_id).0,
            r == perform_tr(old(self)@, task_id).1,
    {
        let ti = match find_task_idx(&self.tasks, task_id) {
            Some(ti) => ti,
            None => {
                return Err(SettleError::NoSuchTask);
            },
        };
        proof {
            crate::store::lemma_find_task(self.tasks@, task_id);
        }
        let t = self.tasks[ti];
        let pi = match find_payment_idx(&self.payments, t.payment_id) {
            Some(pi) => pi,
            None => {
                return Err(SettleError::MissingPayment);
            },
        };
        proof {
            crate::store::lemma_find_payment(self.payments@, t.payment_id);
        }
        let p = self.payments[pi];
        let ui = match find_user_idx(&self.users, p.user_id) {
            Some(ui) => ui,
            None => {
                return Err(SettleError::MissingUser);
            },
        };
        let gi = match find_product_idx(&self.products, p.product_id) {
            Some(gi) => gi,
            None => {
                return Err(SettleError::MissingProduct);
            },
        };
        proof {
            crate::store::lemma_find_user(self.users@, p.user_id);
            crate::store::lemma_find_product(self.products@, p.product_id);
        }
        let balance = self.users[ui].balance;
        let price = self.products[gi].price;
        let stock = self.products[gi].stock;
        proof {
            assert(user_ok(self@.users[ui as int], self@.next_user_id));
            assert(product_ok(self@.products[gi as int], self@.next_product_id));
        }
        let d = decide(balance, price, stock);
        match d {
            Decision::Accept { new_balance } => {
                self.users[ui].balance = new_balance;
                self.payments[pi].status = PaymentStatus::Accepted;
                self.products[gi].stock = stock - 1;
                self.tasks.remove(ti);
                Ok(Decision::Accept { new_balance })
            },
            Decision::RejectBalance { price, balance } => {
                self.tasks[ti] = PaymentTask {
                    error: Some(TaskError::InsufficientBalance { price, balance }),
                    ..t
                };
                self.payments[pi].status = PaymentStatus::Rejected;
                Ok(Decision::RejectBalance { price, balance })
            },
            Decision::RejectStock => {
                self.tasks[ti] = PaymentTask {
                    error: Some(TaskError::OutOfStock),
                    tries_left: 0,
                    ..t
                };
                self.payments[pi].status = PaymentStatus::Rejected;
                Ok(Decision::RejectStock)
            },
        }
    }
}

} // verus!
