//! A word-association learner and random-walk sentence generator, with the
//! text classification and sanitizing rules around it.

pub mod classify;
pub mod generate;
pub mod handler;
pub mod learn;
pub mod sanitize;
pub mod store;
pub mod text;
