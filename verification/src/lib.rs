//! A task manager with accounts: users register, log in, and keep a private
//! list of to-do items. The store holds two relations, users and tasks, and
//! every operation on a task is scoped to the user who owns it.
//!
//! - [`db`]: the store, its value as two sequences of rows, and the
//!   constraints of the schema.
//! - [`user`]: registration and login against bcrypt hashes.
//! - [`task`]: adding, listing, editing, completing and deleting tasks, and
//!   the numbering of a user's list.
//! - [`file_ops`]: export to and import from JSON documents.
//! - [`menu`]: what the menus and prompts decide.
//! - [`laws`]: what holds across operations.
//!
//! The store lives in memory. A program that keeps it in a database reads
//! the rows with [`db::initialize_db`] and writes back what an operation
//! changed.

pub mod db;
pub mod error;
pub mod file_ops;
pub mod laws;
pub mod menu;
pub mod seq_facts;
pub mod task;
pub mod user;
