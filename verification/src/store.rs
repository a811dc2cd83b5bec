//! The relational store: four tables held as vectors, with serial keys.
//!
//! `Store` is the executable value; `Model` is its mathematical view. Every
//! operation's contract states the new model exactly, as a spec-level
//! transition on the old one.

use vstd::prelude::*;

use crate::model::{Payment, PaymentStatus, PaymentTask, Product, User, INITIAL_TRIES};

verus! {

/// The mathematical content of a store: the four table contents in key
/// order, and the next serial key of each table.
pub struct Model {
    pub users: Seq<User>,
    pub products: Seq<Product>,
    pub payments: Seq<Payment>,
    pub tasks: Seq<PaymentTask>,
    pub next_user_id: int,
    pub next_product_id: int,
    pub next_payment_id: int,
    pub next_task_id: int,
}

/// The four tables plus the serial counters that assign fresh keys.
pub struct Store {
    pub users: Vec<User>,
    pub products: Vec<Product>,
    pub payments: Vec<Payment>,
    pub tasks: Vec<PaymentTask>,
    pub next_user_id: i32,
    pub next_product_id: i32,
    pub next_payment_id: i32,
    pub next_task_id: i32,
}

impl View for Store {
    type V = Model;

    open spec fn view(&self) -> Model {
        Model {
            users: self.users@,
            products: self.products@,
            payments: self.payments@,
            tasks: self.tasks@,
            next_user_id: self.next_user_id as int,
            next_product_id: self.next_product_id as int,
            next_payment_id: self.next_payment_id as int,
            next_task_id: self.next_task_id as int,
        }
    }
}

// ---------------------------------------------------------------------------
// Primary-key lookup, as first-match search.
// ---------------------------------------------------------------------------

/// Index of the first user row with the given key.
pub open spec fn find_user(users: Seq<User>, id: i32) -> Option<int>
    decreases users.len(),
{
    if users.len() == 0 {
        None
    } else if users[0].id == id {
        Some(0int)
    } else {
        match find_user(users.skip(1), id) {
            Some(i) => Some(i + 1),
            None => None,
        }
    }
}

/// Index of the first product row with the given key.
pub open spec fn find_product(products: Seq<Product>, id: i32) -> Option<int>
    decreases products.len(),
{
    if products.len() == 0 {
        None
    } else if products[0].id == id {
        Some(0int)
    } else {
        match find_product(products.skip(1), id) {
            Some(i) => Some(i + 1),
            None => None,
        }
    }
}

/// Index of the first payment row with the given key.
pub open spec fn find_payment(payments: Seq<Payment>, id: i32) -> Option<int>
    decreases payments.len(),
{
    if payments.len() == 0 {
        None
    } else if payments[0].id == id {
        Some(0int)
    } else {
        match find_payment(payments.skip(1), id) {
            Some(i) => Some(i + 1),
            None => None,
        }
    }
}

/// Index of the first task row with the given key.
pub open spec fn find_task(tasks: Seq<PaymentTask>, id: i32) -> Option<int>
    decreases tasks.len(),
{
    if tasks.len() == 0 {
        None
    } else if tasks[0].id == id {
        Some(0int)
    } else {
        match find_task(tasks.skip(1), id) {
            Some(i) => Some(i + 1),
            None => None,
        }
    }
}

/// `find_user` returns the first index carrying the key, if any.
pub proof fn lemma_find_user(users: Seq<User>, id: i32)
    ensures
        match find_user(users, id) {
            Some(i) => 0 <= i < users.len() && users[i].id == id && (forall|j: int|
                0 <= j < i ==> users[j].id != id),
            None => forall|j: int| 0 <= j < users.len() ==> users[j].id != id,
        },
    decreases users.len(),
{
    if users.len() > 0 && users[0].id != id {
        lemma_find_user(users.skip(1), id);
        match find_user(users.skip(1), id) {
            Some(i0) => {
                assert(users[i0 + 1] == users.skip(1)[i0]);
                assert forall|j: int| 0 <= j < i0 + 1 implies users[j].id != id by {
                    if j > 0 {
                        assert(users[j] == users.skip(1)[j - 1]);
                    }
                }
            },
            None => {
                assert forall|j: int| 0 <= j < users.len() implies users[j].id != id by {
                    if j > 0 {
                        assert(users[j] == users.skip(1)[j - 1]);
                    }
                }
            },
        }
    }
}

/// `find_product` returns the first index carrying the key, if any.
pub proof fn lemma_find_product(products: Seq<Product>, id: i32)
    ensures
        match find_product(products, id) {
            Some(i) => 0 <= i < products.len() && products[i].id == id && (forall|j: int|
                0 <= j < i ==> products[j].id != id),
            None => forall|j: int| 0 <= j < products.len() ==> products[j].id != id,
        },
    decreases products.len(),
{
    if products.len() > 0 && products[0].id != id {
        lemma_find_product(products.skip(1), id);
        match find_product(products.skip(1), id) {
            Some(i0) => {
                assert(products[i0 + 1] == products.skip(1)[i0]);
                assert forall|j: int| 0 <= j < i0 + 1 implies products[j].id != id by {
                    if j > 0 {
                        assert(products[j] == products.skip(1)[j - 1]);
                    }
                }
            },
            None => {
                assert forall|j: int| 0 <= j < products.len() implies products[j].id != id by {
                    if j > 0 {
                        assert(products[j] == products.skip(1)[j - 1]);
                    }
                }
            },
        }
    }
}

/// `find_payment` returns the first index carrying the key, if any.
pub proof fn lemma_find_payment(payments: Seq<Payment>, id: i32)
    ensures
        match find_payment(payments, id) {
            Some(i) => 0 <= i < payments.len() && payments[i].id == id && (forall|j: int|
                0 <= j < i ==> payments[j].id != id),
            None => forall|j: int| 0 <= j < payments.len() ==> payments[j].id != id,
        },
    decreases payments.len(),
{
    if payments.len() > 0 && payments[0].id != id {
        lemma_find_payment(payments.skip(1), id);
        match find_payment(payments.skip(1), id) {
            Some(i0) => {
                assert(payments[i0 + 1] == payments.skip(1)[i0]);
                assert forall|j: int| 0 <= j < i0 + 1 implies payments[j].id != id by {
                    if j > 0 {
                        assert(payments[j] == payments.skip(1)[j - 1]);
                    }
                }
            },
            None => {
                assert forall|j: int| 0 <= j < payments.len() implies payments[j].id != id by {
                    if j > 0 {
                        assert(payments[j] == payments.skip(1)[j - 1]);
                    }
                }
            },
        }
    }
}

/// `find_task` returns the first index carrying the key, if any.
pub proof fn lemma_find_task(tasks: Seq<PaymentTask>, id: i32)
    ensures
        match find_task(tasks, id) {
            Some(i) => 0 <= i < tasks.len() && tasks[i].id == id && (forall|j: int|
                0 <= j < i ==> tasks[j].id != id),
            None => forall|j: int| 0 <= j < tasks.len() ==> tasks[j].id != id,
        },
    decreases tasks.len(),
{
    if tasks.len() > 0 && tasks[0].id != id {
        lemma_find_task(tasks.skip(1), id);
        match find_task(tasks.skip(1), id) {
            Some(i0) => {
                assert(tasks[i0 + 1] == tasks.skip(1)[i0]);
                assert forall|j: int| 0 <= j < i0 + 1 implies tasks[j].id != id by {
                    if j > 0 {
                        assert(tasks[j] == tasks.skip(1)[j - 1]);
                    }
                }
            },
            None => {
                assert forall|j: int| 0 <= j < tasks.len() implies tasks[j].id != id by {
                    if j > 0 {
                        assert(tasks[j] == tasks.skip(1)[j - 1]);
                    }
                }
            },
        }
    }
}

/// A row that matches at `i`, with no match before it, is what find returns.
pub proof fn lemma_find_user_at(users: Seq<User>, id: i32, i: int)
    requires
        0 <= i < users.len(),
        users[i].id == id,
        forall|j: int| 0 <= j < i ==> users[j].id != id,
    ensures
        find_user(users, id) == Some(i),
{
    lemma_find_user(users, id);
}

/// A row that matches at `i`, with no match before it, is what find returns.
pub proof fn lemma_find_product_at(products: Seq<Product>, id: i32, i: int)
    requires
        0 <= i < products.len(),
        products[i].id == id,
        forall|j: int| 0 <= j < i ==> products[j].id != id,
    ensures
        find_product(products, id) == Some(i),
{
    lemma_find_product(products, id);
}

/// A row that matches at `i`, with no match before it, is what find returns.
pub proof fn lemma_find_payment_at(payments: Seq<Payment>, id: i32, i: int)
    requires
        0 <= i < payments.len(),
        payments[i].id == id,
        forall|j: int| 0 <= j < i ==> payments[j].id != id,
    ensures
        find_payment(payments, id) == Some(i),
{
    lemma_find_payment(payments, id);
}

/// A row that matches at `i`, with no match before it, is what find returns.
pub proof fn lemma_find_task_at(tasks: Seq<PaymentTask>, id: i32, i: int)
    requires
        0 <= i < tasks.len(),
        tasks[i].id == id,
        forall|j: int| 0 <= j < i ==> tasks[j].id != id,
    ensures
        find_task(tasks, id) == Some(i),
{
    lemma_find_task(tasks, id);
}

// ---------------------------------------------------------------------------
// Well-formedness: what holds of every store the operations can reach.
// ---------------------------------------------------------------------------

/// A user row under the table's serial counter, with a non-negative balance.
pub open spec fn user_ok(u: User, next_id: int) -> bool {
    &&& 1 <= u.id < next_id
    &&& u.balance >= 0
}

/// A product row under the counter, with a positive price and stock on hand.
pub open spec fn product_ok(g: Product, next_id: int) -> bool {
    &&& 1 <= g.id < next_id
    &&& g.price >= 1
    &&& g.stock >= 0
}

/// A payment row under the counter whose buyer and product exist.
pub open spec fn payment_ok(
    p: Payment,
    users: Seq<User>,
    products: Seq<Product>,
    next_id: int,
) -> bool {
    &&& 1 <= p.id < next_id
    &&& find_user(users, p.user_id) is Some
    &&& find_product(products, p.product_id) is Some
}

/// The payment a task references, where it exists.
pub open spec fn task_payment(payments: Seq<Payment>, t: PaymentTask) -> Payment
    recommends
        find_task_payment_exists(payments, t),
{
    payments[find_payment(payments, t.payment_id).unwrap()]
}

/// Whether a task's payment row exists.
pub open spec fn find_task_payment_exists(payments: Seq<Payment>, t: PaymentTask) -> bool {
    find_payment(payments, t.payment_id) is Some
}

/// A task row under the counter: tries and timestamps in range, a matching
/// payment row present, that payment not yet accepted, and a dead task that
/// records an error only against a settled payment.
pub open spec fn task_ok(t: PaymentTask, payments: Seq<Payment>, next_id: int) -> bool {
    &&& 1 <= t.id < next_id
    &&& t.tries_left >= 0
    &&& t.created_at >= 0
    &&& t.updated_at >= 0
    &&& (t.next_try_at matches Some(n) ==> n >= 0)
    &&& find_task_payment_exists(payments, t)
    &&& task_payment(payments, t).status != PaymentStatus::Accepted
    &&& (t.tries_left == 0 && t.error is Some ==> task_payment(payments, t).status
        != PaymentStatus::Pending)
}

/// Users table: every row ok, keys strictly increasing.
pub open spec fn users_wf(users: Seq<User>, next_id: int) -> bool {
    &&& forall|i: int| 0 <= i < users.len() ==> user_ok(#[trigger] users[i], next_id)
    &&& forall|i: int, j: int| 0 <= i < j < users.len() ==> users[i].id < users[j].id
}

/// Products table: every row ok, keys strictly increasing.
pub open spec fn products_wf(products: Seq<Product>, next_id: int) -> bool {
    &&& forall|i: int| 0 <= i < products.len() ==> product_ok(#[trigger] products[i], next_id)
    &&& forall|i: int, j: int| 0 <= i < j < products.len() ==> products[i].id < products[j].id
}

/// Payments table: every row ok, keys strictly increasing.
pub open spec fn payments_wf(
    payments: Seq<Payment>,
    users: Seq<User>,
    products: Seq<Product>,
    next_id: int,
) -> bool {
    &&& forall|i: int|
        0 <= i < payments.len() ==> payment_ok(#[trigger] payments[i], users, products, next_id)
    &&& forall|i: int, j: int| 0 <= i < j < payments.len() ==> payments[i].id < payments[j].id
}

/// Tasks table: every row ok, keys strictly increasing, and at most one
/// task per payment.
pub open spec fn tasks_wf(tasks: Seq<PaymentTask>, payments: Seq<Payment>, next_id: int) -> bool {
    &&& forall|i: int| 0 <= i < tasks.len() ==> task_ok(#[trigger] tasks[i], payments, next_id)
    &&& forall|i: int, j: int| 0 <= i < j < tasks.len() ==> tasks[i].id < tasks[j].id
    &&& forall|i: int, j: int|
        0 <= i < j < tasks.len() ==> (#[trigger] tasks[i]).payment_id != (#[trigger] tasks[j]).payment_id
}

/// Well-formedness of the whole store.
pub open spec fn wf(m: Model) -> bool {
    &&& 1 <= m.next_user_id <= i32::MAX
    &&& 1 <= m.next_product_id <= i32::MAX
    &&& 1 <= m.next_payment_id <= i32::MAX
    &&& 1 <= m.next_task_id <= i32::MAX
    &&& users_wf(m.users, m.next_user_id)
    &&& products_wf(m.products, m.next_product_id)
    &&& payments_wf(m.payments, m.users, m.products, m.next_payment_id)
    &&& tasks_wf(m.tasks, m.payments, m.next_task_id)
}

// ---------------------------------------------------------------------------
// Schema bootstrap and the seed/publish inserts, as transitions.
// ---------------------------------------------------------------------------

/// A fresh schema: four empty tables, counters at one.
pub open spec fn init_model() -> Model {
    Model {
        users: Seq::empty(),
        products: Seq::empty(),
        payments: Seq::empty(),
        tasks: Seq::empty(),
        next_user_id: 1,
        next_product_id: 1,
        next_payment_id: 1,
        next_task_id: 1,
    }
}

/// What inserting a user does: append the row under the next key.
pub open spec fn insert_user_tr(m: Model, name: String, email: String, balance: i32) -> Model {
    Model {
        users: m.users.push(
            User { id: m.next_user_id as i32, name: name, email: email, balance: balance },
        ),
        next_user_id: m.next_user_id + 1,
        ..m
    }
}

/// What inserting a product does: append the row under the next key.
pub open spec fn insert_product_tr(
    m: Model,
    name: String,
    price: i32,
    stock: i32,
    discount: i32,
) -> Model {
    Model {
        products: m.products.push(
            Product {
                id: m.next_product_id as i32,
                name: name,
                price: price,
                stock: stock,
                discount: discount,
            },
        ),
        next_product_id: m.next_product_id + 1,
        ..m
    }
}

/// The task row the enqueue trigger writes for a fresh payment.
pub open spec fn fresh_task(task_id: i32, payment_id: i32, now: i64) -> PaymentTask {
    PaymentTask {
        id: task_id,
        payment_id: payment_id,
        tries_left: INITIAL_TRIES,
        error: None,
        processing: false,
        next_try_at: None,
        created_at: now,
        updated_at: now,
    }
}

/// What inserting a payment does: append the pending payment row, and — the
/// enqueue trigger, in the same transaction — its task row.
pub open spec fn insert_payment_tr(
    m: Model,
    product_id: i32,
    user_id: i32,
    amount: i32,
    now: i64,
) -> Model {
    Model {
        payments: m.payments.push(
            Payment {
                id: m.next_payment_id as i32,
                product_id: product_id,
                user_id: user_id,
                amount: amount,
                status: PaymentStatus::Pending,
            },
        ),
        tasks: m.tasks.push(fresh_task(m.next_task_id as i32, m.next_payment_id as i32, now)),
        next_payment_id: m.next_payment_id + 1,
        next_task_id: m.next_task_id + 1,
        ..m
    }
}

/// Why an insert was refused: a foreign key that no row carries.
#[derive(Clone, Copy, PartialEq, Eq, Structural, Debug)]
pub enum InsertError {
    NoSuchUser,
    NoSuchProduct,
}

impl Store {
    /// A store over a fresh schema.
    pub fn new() -> (s: Store)
        ensures
            s@ == init_model(),
    {
        let s = Store {
            users: Vec::new(),
            products: Vec::new(),
            payments: Vec::new(),
            tasks: Vec::new(),
            next_user_id: 1,
            next_product_id: 1,
            next_payment_id: 1,
            next_task_id: 1,
        };
        proof {
            assert(s@.users =~= init_model().users);
            assert(s@.products =~= init_model().products);
            assert(s@.payments =~= init_model().payments);
            assert(s@.tasks =~= init_model().tasks);
        }
        s
    }

    /// Seed a user row; returns its key.
    pub fn insert_user(&mut self, name: String, email: String, balance: i32) -> (id: i32)
        requires
            old(self).next_user_id < i32::MAX,
        ensures
            final(self)@ == insert_user_tr(old(self)@, name, email, balance),
            id == old(self)@.next_user_id,
    {
        let id = self.next_user_id;
        self.users.push(User { id, name, email, balance });
        self.next_user_id = id + 1;
        id
    }

    /// Seed a product row; returns its key.
    pub fn insert_product(&mut self, name: String, price: i32, stock: i32, discount: i32) -> (id:
        i32)
        requires
            old(self).next_product_id < i32::MAX,
        ensures
            final(self)@ == insert_product_tr(old(self)@, name, price, stock, discount),
            id == old(self)@.next_product_id,
    {
        let id = self.next_product_id;
        self.products.push(Product { id, name, price, stock, discount });
        self.next_product_id = id + 1;
        id
    }

    /// Publish a payment. The row is created pending, and the enqueue
    /// trigger adds its task row in the same transaction. Fails — and
    /// leaves the store untouched — exactly when a referenced key is
    /// missing, as the schema's foreign keys demand.
    pub fn insert_payment(&mut self, product_id: i32, user_id: i32, amount: i32, now: i64) -> (r:
        Result<i32, InsertError>)
        requires
            old(self).next_payment_id < i32::MAX,
            old(self).next_task_id < i32::MAX,
        ensures
            match r {
                Ok(id) => {
                    &&& find_product(old(self)@.products, product_id) is Some
                    &&& find_user(old(self)@.users, user_id) is Some
                    &&& id == old(self)@.next_payment_id
                    &&& final(self)@ == insert_payment_tr(old(self)@, product_id, user_id, amount, now)
                },
                Err(e) => {
                    &&& *final(self) == *old(self)
                    &&& (e == InsertError::NoSuchProduct <==> find_product(
                        old(self)@.products,
                        product_id,
                    ) is None)
                    &&& (e == InsertError::NoSuchUser ==> find_user(old(self)@.users, user_id) is None)
                    &&& (find_product(old(self)@.products, product_id) is None || find_user(
                        old(self)@.users,
                        user_id,
                    ) is None)
                },
            },
    {
        if find_product_idx(&self.products, product_id).is_none() {
            return Err(InsertError::NoSuchProduct);
        }
        if find_user_idx(&self.users, user_id).is_none() {
            return Err(InsertError::NoSuchUser);
        }
        let id = self.next_payment_id;
        self.payments.push(
            Payment { id, product_id, user_id, amount, status: PaymentStatus::Pending },
        );
        let task_id = self.next_task_id;
        self.tasks.push(
            PaymentTask {
                id: task_id,
                payment_id: id,
                tries_left: INITIAL_TRIES,
                error: None,
                processing: false,
                next_try_at: None,
                created_at: now,
                updated_at: now,
            },
        );
        self.next_payment_id = id + 1;
        self.next_task_id = task_id + 1;
        Ok(id)
    }
}

// ---------------------------------------------------------------------------
// Key lookup, executable.
// ---------------------------------------------------------------------------

/// First user row with the given key.
pub fn find_user_idx(users: &Vec<User>, id: i32) -> (r: Option<usize>)
    ensures
        match r {
            Some(i) => find_user(users@, id) == Some(i as int),
            None => find_user(users@, id) is None,
        },
{
    let mut i: usize = 0;
    while i < users.len()
        invariant
            i <= users@.len(),
            forall|j: int| 0 <= j < i ==> users@[j].id != id,
        decreases users@.len() - i,
    {
        if users[i].id == id {
            proof {
                lemma_find_user_at(users@, id, i as int);
            }
            return Some(i);
        }
        i = i + 1;
    }
    proof {
        lemma_find_user(users@, id);
    }
    None
}

/// First product row with the given key.
pub fn find_product_idx(products: &Vec<Product>, id: i32) -> (r: Option<usize>)
    ensures
        match r {
            Some(i) => find_product(products@, id) == Some(i as int),
            None => find_product(products@, id) is None,
        },
{
    let mut i: usize = 0;
    while i < products.len()
        invariant
            i <= products@.len(),
            forall|j: int| 0 <= j < i ==> products@[j].id != id,
        decreases products@.len() - i,
    {
        if products[i].id == id {
            proof {
                lemma_find_product_at(products@, id, i as int);
            }
            return Some(i);
        }
        i = i + 1;
    }
    proof {
        lemma_find_product(products@, id);
    }
    None
}

/// First payment row with the given key.
pub fn find_payment_idx(payments: &Vec<Payment>, id: i32) -> (r: Option<usize>)
    ensures
        match r {
            Some(i) => find_payment(payments@, id) == Some(i as int),
            None => find_payment(payments@, id) is None,
        },
{
    let mut i: usize = 0;
    while i < payments.len()
        invariant
            i <= payments@.len(),
            forall|j: int| 0 <= j < i ==> payments@[j].id != id,
        decreases payments@.len() - i,
    {
        if payments[i].id == id {
            proof {
                lemma_find_payment_at(payments@, id, i as int);
            }
            return Some(i);
        }
        i = i + 1;
    }
    proof {
        lemma_find_payment(payments@, id);
    }
    None
}

/// First task row with the given key.
pub fn find_task_idx(tasks: &Vec<PaymentTask>, id: i32) -> (r: Option<usize>)
    ensures
        match r {
            Some(i) => find_task(tasks@, id) == Some(i as int),
            None => find_task(tasks@, id) is None,
        },
{
    let mut i: usize = 0;
    while i < tasks.len()
        invariant
            i <= tasks@.len(),
            forall|j: int| 0 <= j < i ==> tasks@[j].id != id,
        decreases tasks@.len() - i,
    {
        if tasks[i].id == id {
            proof {
                lemma_find_task_at(tasks@, id, i as int);
            }
            return Some(i);
        }
        i = i + 1;
    }
    proof {
        lemma_find_task(tasks@, id);
    }
    None
}

impl Store {
    /// The user row with the given key.
    pub fn get_user(&self, id: i32) -> (r: Option<&User>)
        ensures
            match find_user(self@.users, id) {
                Some(i) => r is Some && *r.unwrap() == self@.users[i],
                None => r is None,
            },
    {
        match find_user_idx(&self.users, id) {
            Some(i) => {
                proof {
                    lemma_find_user(self.users@, id);
                }
                Some(&self.users[i])
            },
            None => None,
        }
    }

    /// The product row with the given key.
    pub fn get_product(&self, id: i32) -> (r: Option<&Product>)
        ensures
            match find_product(self@.products, id) {
                Some(i) => r is Some && *r.unwrap() == self@.products[i],
                None => r is None,
            },
    {
        match find_product_idx(&self.products, id) {
            Some(i) => {
                proof {
                    lemma_find_product(self.products@, id);
                }
                Some(&self.products[i])
            },
            None => None,
        }
    }

    /// The payment row with the given key.
    pub fn get_payment(&self, id: i32) -> (r: Option<&Payment>)
        ensures
            match find_payment(self@.payments, id) {
                Some(i) => r is Some && *r.unwrap() == self@.payments[i],
                None => r is None,
            },
    {
        match find_payment_idx(&self.payments, id) {
            Some(i) => {
                proof {
                    lemma_find_payment(self.payments@, id);
                }
                Some(&self.payments[i])
            },
            None => None,
        }
    }

    /// The task row with the given key.
    pub fn get_task(&self, id: i32) -> (r: Option<&PaymentTask>)
        ensures
            match find_task(self@.tasks, id) {
                Some(i) => r is Some && *r.unwrap() == self@.tasks[i],
                None => r is None,
            },
    {
        match find_task_idx(&self.tasks, id) {
            Some(i) => {
                proof {
                    lemma_find_task(self.tasks@, id);
                }
                Some(&self.tasks[i])
            },
            None => None,
        }
    }

    /// How many task rows remain queued or dead-lettered.
    pub fn task_count(&self) -> (n: usize)
        ensures
            n == self@.tasks.len(),
    {
        self.tasks.len()
    }
}

} // verus!
