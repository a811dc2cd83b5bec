//! The record types of the four tables and the settlement decision.

use vstd::prelude::*;

verus! {

/// How many settlement attempts a fresh task is granted.
pub const INITIAL_TRIES: i32 = 5;

/// A lease is presumed abandoned once it is older than this (milliseconds).
pub const LEASE_TTL_MS: i64 = 1000;

/// How long the supervisor sleeps when the queue is empty (milliseconds).
pub const POLL_INTERVAL_MS: u64 = 500;

/// Status of a payment: created `Pending`; settlement moves it to
/// `Accepted` or `Rejected`.
#[derive(Clone, Copy, PartialEq, Eq, Structural, Debug)]
pub enum PaymentStatus {
    Pending,
    Accepted,
    Rejected,
}

/// Why a settlement attempt rejected a payment; stored on the task row.
#[derive(Clone, Copy, PartialEq, Eq, Structural, Debug)]
pub enum TaskError {
    /// The product's price exceeds the buyer's balance.
    InsufficientBalance { price: i32, balance: i32 },
    /// The product is out of stock.
    OutOfStock,
}

/// A buyer. `balance` is in integer minor units and never goes negative.
#[derive(Debug)]
pub struct User {
    pub id: i32,
    pub name: String,
    pub email: String,
    pub balance: i32,
}

/// A thing for sale. `price` is positive; `stock` never goes negative;
/// `discount` is carried but not consulted by settlement.
#[derive(Debug)]
pub struct Product {
    pub id: i32,
    pub name: String,
    pub price: i32,
    pub stock: i32,
    pub discount: i32,
}

/// An intent to buy. `amount` is informational: settlement charges the
/// product's current `price`.
#[derive(Clone, Copy, PartialEq, Eq, Structural, Debug)]
pub struct Payment {
    pub id: i32,
    pub product_id: i32,
    pub user_id: i32,
    pub amount: i32,
    pub status: PaymentStatus,
}

/// A queue row. Timestamps are wall-clock milliseconds.
#[derive(Clone, Copy, PartialEq, Eq, Structural, Debug)]
pub struct PaymentTask {
    pub id: i32,
    pub payment_id: i32,
    pub tries_left: i32,
    pub error: Option<TaskError>,
    pub processing: bool,
    pub next_try_at: Option<i64>,
    pub created_at: i64,
    pub updated_at: i64,
}

/// Outcome of one settlement attempt, decided on a snapshot of the
/// buyer's balance and the product's price and stock.
#[derive(Clone, Copy, PartialEq, Eq, Structural, Debug)]
pub enum Decision {
    /// Debit the buyer, take one unit of stock, accept the payment.
    Accept { new_balance: i32 },
    /// Balance short of the price: reject, keep the task for retries.
    RejectBalance { price: i32, balance: i32 },
    /// Nothing in stock: reject and terminate the task.
    RejectStock,
}

/// What `decide` returns on a given snapshot.
pub open spec fn spec_decide(balance: i32, price: i32, stock: i32) -> Decision {
    if balance - price < 0 {
        Decision::RejectBalance { price, balance }
    } else if stock - 1 < 0 {
        Decision::RejectStock
    } else {
        Decision::Accept { new_balance: (balance - price) as i32 }
    }
}

/// The settlement decision: reject when the price exceeds the balance,
/// otherwise reject when no stock remains, otherwise accept with the
/// debited balance.
pub fn decide(balance: i32, price: i32, stock: i32) -> (d: Decision)
    requires
        balance >= 0,
        price >= 0,
    ensures
        d == spec_decide(balance, price, stock),
{
    let new_balance = balance - price;
    if new_balance < 0 {
        Decision::RejectBalance { price, balance }
    } else if stock < 1 {
        Decision::RejectStock
    } else {
        Decision::Accept { new_balance }
    }
}

} // verus!
