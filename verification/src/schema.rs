//! Schema bootstrap: the statements that drop and recreate the four tables,
//! the enqueue function and the trigger, and what running them means for the
//! store model.

use vstd::prelude::*;

use crate::store::{init_model, Model};

verus! {

/// The bootstrap batch: the four tables with server-generated identity
/// keys, and the row-level AFTER INSERT trigger on payments that enqueues a
/// task row for every committed payment.
pub open spec fn schema_ddl() -> Seq<char> {
    "drop table if exists users cascade;
        create table if not exists users (
            id serial primary key,
            name text not null,
            email text not null,
            balance int not null default 0
        );
        drop table if exists products cascade;
        create table if not exists products (
            id serial primary key,
            name text not null,
            price int not null,
            stock int not null default 0,
            discount int not null default 0
        );

        drop table if exists payments cascade;
        create table if not exists payments (
            id serial primary key,
            product_id int,
            user_id int,
            amount int not null default 0,
            status text default 'pending',
            CONSTRAINT fk_product_id
                FOREIGN KEY(product_id)
                REFERENCES products(id),
            CONSTRAINT fk_user_id
                FOREIGN KEY(user_id)
                REFERENCES users(id)

        );
        drop table if exists payment_tasks cascade;
        create table if not exists payment_tasks (
            id serial primary key,
            payment_id int,
            tries_left int not null default 5,
            error text,
            processing bool not null default false,
            next_try_at timestamp,
            created_at timestamp not null default CURRENT_TIMESTAMP,
            updated_at timestamp not null default CURRENT_TIMESTAMP,
            CONSTRAINT fk_payment_id
                FOREIGN KEY(payment_id)
                REFERENCES payments(id)
        );

        CREATE OR REPLACE FUNCTION insert_into_payment_task()
        RETURNS TRIGGER AS $$
        BEGIN
            INSERT INTO payment_tasks (payment_id) VALUES (NEW.id);
            RETURN NEW;
        END;
        $$ LANGUAGE plpgsql;

        drop trigger if exists process_payment_trigger on payments cascade;
        CREATE TRIGGER process_payment_trigger
        AFTER INSERT
        ON payments
        FOR EACH ROW
        EXECUTE FUNCTION insert_into_payment_task();
    "@
}

/// What running the bootstrap batch does to the store, whatever was there:
/// every table is dropped and recreated empty, and the serial counters
/// start over.
pub open spec fn reset_tr(m: Model) -> Model {
    init_model()
}

/// The bootstrap batch. The caller sends it to the database in one
/// round-trip; its effect on the store is `reset_tr`.
pub fn create_tables() -> (sql: &'static str)
    ensures
        sql@ == schema_ddl(),
{
    "drop table if exists users cascade;
        create table if not exists users (
            id serial primary key,
            name text not null,
            email text not null,
            balance int not null default 0
        );
        drop table if exists products cascade;
        create table if not exists products (
            id serial primary key,
            name text not null,
            price int not null,
            stock int not null default 0,
            discount int not null default 0
        );

        drop table if exists payments cascade;
        create table if not exists payments (
            id serial primary key,
            product_id int,
            user_id int,
            amount int not null default 0,
            status text default 'pending',
            CONSTRAINT fk_product_id
                FOREIGN KEY(product_id)
                REFERENCES products(id),
            CONSTRAINT fk_user_id
                FOREIGN KEY(user_id)
                REFERENCES users(id)

        );
        drop table if exists payment_tasks cascade;
        create table if not exists payment_tasks (
            id serial primary key,
            payment_id int,
            tries_left int not null default 5,
            error text,
            processing bool not null default false,
            next_try_at timestamp,
            created_at timestamp not null default CURRENT_TIMESTAMP,
            updated_at timestamp not null default CURRENT_TIMESTAMP,
            CONSTRAINT fk_payment_id
                FOREIGN KEY(payment_id)
                REFERENCES payments(id)
        );

        CREATE OR REPLACE FUNCTION insert_into_payment_task()
        RETURNS TRIGGER AS $$
        BEGIN
            INSERT INTO payment_tasks (payment_id) VALUES (NEW.id);
            RETURN NEW;
        END;
        $$ LANGUAGE plpgsql;

        drop trigger if exists process_payment_trigger on payments cascade;
        CREATE TRIGGER process_payment_trigger
        AFTER INSERT
        ON payments
        FOR EACH ROW
        EXECUTE FUNCTION insert_into_payment_task();
    "
}

/// Bootstrapping twice leaves the schema exactly as bootstrapping once:
/// the reset is idempotent.
pub proof fn lemma_reset_idempotent(m: Model)
    ensures
        reset_tr(reset_tr(m)) == reset_tr(m),
{
}

} // verus!
