//! What the bot does with one incoming message: answer it, or learn from it.

use vstd::prelude::*;
use microkv::namespace::NamespaceMicrokv;
use crate::classify::{asks_bot, channel_blacklisted, lower_of, restricted, should_respond};
use crate::generate::{ends_terminal, generate};
use crate::learn::{learn_log_ok, learn_message, split_spaces};
use crate::sanitize::{escaped, sanitize_str};
use crate::text::{chars_of, same_chars};

verus! {

/// The text to post for a generated sentence: nothing for an empty sentence
/// or a lone `.`, else the sentence made safe to post.
pub fn reply_text(sentence: String) -> (r: Option<String>)
    ensures
        (sentence@.len() == 0 || sentence@ == "."@) ==> r is None,
        !(sentence@.len() == 0 || sentence@ == "."@) ==> (r matches Some(m) && m@ == escaped(
            sentence@,
        )),
{
    let cs = chars_of(sentence.as_str());
    if cs.len() == 0 || same_chars(&cs, ".") {
        return None;
    }
    Some(sanitize_str(sentence))
}

/// The answer to a message of the scope: none unless the message addresses
/// the bot; else a generated sentence, made safe to post, unless nothing was
/// generated.
pub fn reply_for(db: &NamespaceMicrokv, text: &str) -> (r: Option<String>)
    ensures
        !asks_bot(lower_of(text@)) ==> r is None,
        r matches Some(m) ==> exists|s: Seq<char>| ends_terminal(s) && m@ == escaped(s),
{
    if !should_respond(text) {
        return None;
    }
    let sentence = generate(db);
    let ghost s = sentence@;
    let r = reply_text(sentence);
    proof {
        if r is Some {
            assert(ends_terminal(s));
        }
    }
    r
}

/// Learns from a message posted in the channel named `channel`, unless the
/// channel is closed to learning, in which case the store is asked for no
/// write. Returns how many writes succeeded, with the log of the writes
/// asked of the store, as `learn_message` gives them.
pub fn learn_from(db: &NamespaceMicrokv, channel: &str, text: &str) -> (r: (usize, Ghost<Seq<(Seq<char>, Seq<Seq<char>>)>>))
    ensures
        restricted(channel@) ==> r.0 == 0 && r.1@.len() == 0,
        !restricted(channel@) ==> learn_log_ok(split_spaces(text@), r.1@),
        split_spaces(text@).len() < 2 ==> r.0 == 0 && r.1@.len() == 0,
        r.0 <= r.1@.len() <= r.0 + 1,
        r.1@.len() <= split_spaces(text@).len(),
{
    if channel_blacklisted(channel) {
        return (0, Ghost(Seq::empty()));
    }
    learn_message(db, text)
}

} // verus!
