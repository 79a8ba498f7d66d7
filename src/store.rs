//! The scoped word store: one microkv namespace per scope, each key holding a
//! list of words.

use vstd::prelude::*;
use microkv::namespace::NamespaceMicrokv;

verus! {

/// microkv's view of one namespace of a store, carried through opaque.
#[verifier::external_type_specification]
#[verifier::external_body]
pub struct ExNamespaceMicrokv<'a>(NamespaceMicrokv<'a>);

/// The key under which a scope keeps its starting words.
pub const STARTING_WORDS_KEY: &'static str = "__STARTING_WORDS__";

/// Relies on `NamespaceMicrokv::get`: reads and decodes the list stored under
/// `key` in this namespace; a missing key gives `None`, and so, here, does a
/// failed read. What comes back depends on what the store holds.
#[verifier::external_body]
fn fetch_words(db: &NamespaceMicrokv, key: &str) -> (r: Option<Vec<String>>) {
    match db.get::<Vec<String>>(key) {
        Ok(found) => found,
        Err(_) => None,
    }
}

/// Relies on `NamespaceMicrokv::put`: replaces the list stored under `key`;
/// `true` when the store reported success.
#[verifier::external_body]
fn store_words(db: &NamespaceMicrokv, key: &str, words: &Vec<String>) -> (r: bool) {
    db.put(key, words).is_ok()
}

/// A looked-up list, with a miss or a failed read taken as the empty list.
pub fn get_vec_or_empty(found: Option<Vec<String>>) -> (r: Vec<String>)
    ensures
        r@ == match found {
            Some(v) => v@,
            None => Seq::<String>::empty(),
        },
{
    match found {
        Some(v) => v,
        None => Vec::new(),
    }
}

/// The scope's starting words from a lookup of their key: the stored list,
/// or the empty list on a miss or a failed read.
pub fn get_starting_words(found: Option<Vec<String>>) -> (r: Vec<String>)
    ensures
        r@ == match found {
            Some(v) => v@,
            None => Seq::<String>::empty(),
        },
{
    get_vec_or_empty(found)
}

/// Looks `key` up in the store: `None` on a miss or a failed read. What
/// comes back depends on what the store holds.
pub fn read_words(db: &NamespaceMicrokv, key: &str) -> (r: Option<Vec<String>>) {
    fetch_words(db, key)
}

/// Looks the scope's starting words up in the store.
pub fn read_starting_words(db: &NamespaceMicrokv) -> (r: Option<Vec<String>>) {
    fetch_words(db, STARTING_WORDS_KEY)
}

/// Stores `words` under `key`; `true` on success.
pub fn put_words(db: &NamespaceMicrokv, key: &str, words: &Vec<String>) -> (r: bool) {
    store_words(db, key, words)
}

} // verus!
