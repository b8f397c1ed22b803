//! An in-memory store of questions, answers and accounts, with the request
//! logic of a small question-and-answer service.
//!
//! Writers take the store by `&mut` and readers by `&`, so a program that
//! shares one store between tasks behind a read/write lock gets the
//! shared/exclusive discipline that the store's contracts assume.

pub mod api;
pub mod auth;
pub mod database;
pub mod question;
