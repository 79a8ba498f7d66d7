//! Deciding whether a message addresses the bot, and whether a channel is
//! closed to learning.

use vstd::prelude::*;
use crate::text::{chars_of, contains_str, has_sub, same_chars};

verus! {

/// The lowercase form of a text, as `str::to_lowercase` gives it.
pub uninterp spec fn lower_of(s: Seq<char>) -> Seq<char>;

/// Relies on `str::to_lowercase`: the result depends on the characters alone,
/// and an empty text stays empty.
#[verifier::external_body]
pub(crate) fn lowercase(s: &str) -> (r: String)
    ensures
        r@ == lower_of(s@),
        s@.len() == 0 ==> r@.len() == 0,
{
    s.to_lowercase()
}

/// The text names the bot, in Latin or Cyrillic letters.
pub open spec fn names_bot(t: Seq<char>) -> bool {
    has_sub(t, "luna"@) || has_sub(t, "луна"@)
}

/// The text holds a question or an address cue.
pub open spec fn has_cue(t: Seq<char>) -> bool {
    has_sub(t, "?"@) || has_sub(t, "what"@) || has_sub(t, "is"@) || has_sub(t, "are you"@)
        || has_sub(t, "tell"@) || has_sub(t, "say"@) || has_sub(t, "thought"@) || has_sub(
        t,
        "opinion"@,
    ) || has_sub(t, "как"@) || has_sub(t, "дума"@) || has_sub(t, "скаж"@) || has_sub(
        t,
        "что"@,
    ) || has_sub(t, "почему"@) || has_sub(t, "зачем"@) || has_sub(t, "мнение"@) || has_sub(
        t,
        "мысл"@,
    )
}

/// A lowercased text asks the bot for an answer.
pub open spec fn asks_bot(t: Seq<char>) -> bool {
    names_bot(t) && has_cue(t)
}

/// Whether an already lowercased text names the bot and holds a cue.
pub fn addresses_bot(lowered: &str) -> (r: bool)
    ensures
        r == asks_bot(lowered@),
{
    let t = chars_of(lowered);
    let named = contains_str(&t, "luna") || contains_str(&t, "луна");
    if !named {
        return false;
    }
    contains_str(&t, "?") || contains_str(&t, "what") || contains_str(&t, "is")
        || contains_str(&t, "are you") || contains_str(&t, "tell") || contains_str(&t, "say")
        || contains_str(&t, "thought") || contains_str(&t, "opinion") || contains_str(&t, "как")
        || contains_str(&t, "дума") || contains_str(&t, "скаж") || contains_str(&t, "что")
        || contains_str(&t, "почему") || contains_str(&t, "зачем") || contains_str(&t, "мнение")
        || contains_str(&t, "мысл")
}

/// Whether a message is addressed to the bot: matching ignores case, and
/// each word may stand inside another word.
pub fn should_respond(text: &str) -> (r: bool)
    ensures
        r == asks_bot(lower_of(text@)),
{
    let lowered = lowercase(text);
    addresses_bot(lowered.as_str())
}

/// The channel name marks a restricted channel.
pub open spec fn restricted(n: Seq<char>) -> bool {
    has_sub(n, "staff"@) || has_sub(n, "admin"@) || has_sub(n, "moderator"@) || has_sub(
        n,
        "priv"@,
    ) || has_sub(n, "appeals"@) || n == "mods"@ || n == "lounge"@
}

/// Whether messages of the channel with this name are kept out of learning.
pub fn channel_blacklisted(name: &str) -> (r: bool)
    ensures
        r == restricted(name@),
{
    let n = chars_of(name);
    contains_str(&n, "staff") || contains_str(&n, "admin") || contains_str(&n, "moderator")
        || contains_str(&n, "priv") || contains_str(&n, "appeals") || same_chars(&n, "mods")
        || same_chars(&n, "lounge")
}

} // verus!
