//! Generating a sentence by a bounded random walk over the learned words.

use vstd::prelude::*;
use vstd::string::*;
use microkv::namespace::NamespaceMicrokv;
use rand::seq::SliceRandom;
use rand::Rng;
use crate::classify::{lower_of, lowercase};
use crate::learn::views;
use crate::store::{get_starting_words, get_vec_or_empty, read_starting_words, read_words};
use crate::text::{chars_of, ends_with_str, has_suffix, push_char, same_chars, trim_end, trim_trailing};

verus! {

/// The deepest level of continuation or retry; past it a walk yields nothing.
pub const MAX_LEVEL: u8 = 10;

/// The most words one walk appends.
pub const MAX_WALK: usize = 48;

/// Relies on `rand::Rng::gen` over the thread-local generator: any `u64`.
#[verifier::external_body]
fn random_roll() -> (r: u64) {
    rand::thread_rng().gen::<u64>()
}

/// Relies on `SliceRandom::choose`: `None` exactly for an empty list, else
/// one of its words.
#[verifier::external_body]
fn choose_word(words: &Vec<String>) -> (r: Option<String>)
    ensures
        r is None <==> words@.len() == 0,
        r matches Some(w) ==> views(words@).contains(w@),
{
    words.as_slice().choose(&mut rand::thread_rng()).cloned()
}

/// A lowercased word after which the walk always goes on.
pub open spec fn sure_pick(l: Seq<char>) -> bool {
    l == "i'm"@ || l == "the"@ || l == "a"@ || l == "i"@ || l == "to"@ || l == "for"@
}

/// Whether an already lowercased word is one after which the walk always
/// goes on.
pub fn is_sure_pick(lowered: &str) -> (r: bool)
    ensures
        r == sure_pick(lowered@),
{
    let l = chars_of(lowered);
    same_chars(&l, "i'm") || same_chars(&l, "the") || same_chars(&l, "a") || same_chars(&l, "i")
        || same_chars(&l, "to") || same_chars(&l, "for")
}

/// Whether the walk always goes on after `word`; case is ignored.
pub fn forces_pick(word: &str) -> (r: bool)
    ensures
        r == sure_pick(lower_of(word@)),
{
    let l = lowercase(word);
    is_sure_pick(l.as_str())
}

/// Whether a pick goes ahead: always when forced, else unless the roll is a
/// multiple of ten (one chance in ten to stop).
pub fn pick_goes_on(roll: u64, forced: bool) -> (r: bool)
    ensures
        r == (forced || roll % 10 != 0),
{
    forced || roll % 10 != 0
}

/// Picks the next word of a walk among `candidates`, or stops. After a sure
/// word the pick always goes ahead; a pick from an empty list stops.
pub fn pick_word(candidates: &Vec<String>, prev: Option<&String>) -> (r: Option<String>)
    ensures
        r matches Some(w) ==> views(candidates@).contains(w@),
        candidates@.len() == 0 ==> r is None,
        (prev matches Some(p) && sure_pick(lower_of(p@)) && candidates@.len() > 0) ==> r is Some,
{
    let forced = match prev {
        Some(p) => forces_pick(p.as_str()),
        None => false,
    };
    if !pick_goes_on(random_roll(), forced) {
        return None;
    }
    choose_word(candidates)
}

/// The text ends a sentence.
pub open spec fn ends_terminal(s: Seq<char>) -> bool {
    s.len() > 0 && (s.last() == '.' || s.last() == '?' || s.last() == '!')
}

/// `s` closed as a sentence: left as it is when it ends in `.`, `?` or `!`;
/// else given `?` after "what", "why" or "who", and `.` otherwise.
pub open spec fn punctuated(s: Seq<char>) -> Seq<char> {
    if ends_terminal(s) {
        s
    } else if has_suffix(s, "what"@) || has_suffix(s, "why"@) || has_suffix(s, "who"@) {
        s.push('?')
    } else {
        s.push('.')
    }
}

/// Closes a text as a sentence.
pub fn punctuate(s: String) -> (r: String)
    ensures
        r@ == punctuated(s@),
        ends_terminal(r@),
{
    let cs = chars_of(s.as_str());
    let n = cs.len();
    if n > 0 && (cs[n - 1] == '.' || cs[n - 1] == '?' || cs[n - 1] == '!') {
        return s;
    }
    let mut r = s;
    if ends_with_str(&cs, "what") || ends_with_str(&cs, "why") || ends_with_str(&cs, "who") {
        push_char(&mut r, '?');
    } else {
        push_char(&mut r, '.');
    }
    r
}

/// The words of `ws`, each followed by a space.
pub open spec fn spaced(ws: Seq<Seq<char>>) -> Seq<char>
    decreases ws.len(),
{
    if ws.len() == 0 {
        Seq::empty()
    } else {
        spaced(ws.drop_last()) + ws.last().push(' ')
    }
}

/// One step of a walk. With no word picked the walk stops and the text
/// stays; else the word and a space are appended, and the walk goes on when
/// the word has successors and the step was not the last one allowed.
pub fn walk_step(sentence: String, picked: Option<String>, successors: &Vec<String>, steps: usize) -> (r: (String, bool))
    ensures
        picked is None ==> r.0@ == sentence@ && !r.1,
        picked matches Some(w) ==> r.0@ == sentence@ + w@.push(' ') && r.1 == (successors@.len() > 0
            && steps + 1 < MAX_WALK),
{
    match picked {
        None => (sentence, false),
        Some(w) => {
            let mut s = sentence;
            s.append(w.as_str());
            push_char(&mut s, ' ');
            let go = successors.len() > 0 && steps < MAX_WALK - 1;
            (s, go)
        },
    }
}

/// What a walk did: `ws` the words it appended, `reads[k]` the successor
/// list it read for `ws[k]`. The first word comes from `candidates`, each
/// later word from the list read for the word before it; the walk went on
/// only after a word with successors, and always went on after a sure word
/// with successors below the step limit.
pub open spec fn walk_ok(
    candidates: Seq<Seq<char>>,
    ws: Seq<Seq<char>>,
    reads: Seq<Seq<Seq<char>>>,
) -> bool {
    &&& ws.len() <= MAX_WALK
    &&& reads.len() == ws.len()
    &&& (ws.len() > 0 ==> candidates.contains(ws[0]))
    &&& forall|k: int| 0 <= k < ws.len() - 1 ==> #[trigger] reads[k].contains(ws[k + 1])
    &&& forall|k: int|
        0 <= k < ws.len() && sure_pick(lower_of(#[trigger] ws[k])) && reads[k].len() > 0 && k + 1
            < MAX_WALK ==> k + 1 < ws.len()
}

/// Walks from `candidates`: picks a word, appends it and a space, and goes
/// on among its stored successors, for at most `MAX_WALK` words. The walk
/// stops when a pick stops or a word has no successors. Returns the text
/// with the record of the words picked and the lists read.
pub fn walk(db: &NamespaceMicrokv, candidates: &Vec<String>) -> (r: (
    String,
    Ghost<(Seq<Seq<char>>, Seq<Seq<Seq<char>>>)>,
))
    ensures
        r.0@ == spaced(r.1@.0),
        walk_ok(views(candidates@), r.1@.0, r.1@.1),
        candidates@.len() == 0 ==> r.0@.len() == 0,
{
    let mut sentence = String::new();
    let mut next: Vec<String> = candidates.clone();
    let mut prev: Option<String> = None;
    let ghost mut ws: Seq<Seq<char>> = Seq::empty();
    let ghost mut reads: Seq<Seq<Seq<char>>> = Seq::empty();
    let ghost cands = views(candidates@);
    let mut i: usize = 0;
    while i < MAX_WALK
        invariant_except_break
            i == 0 ==> views(next@) == cands && prev is None,
            i > 0 ==> views(next@) == reads[i - 1] && cands.contains(ws[0]) && (prev matches Some(
                p,
            ) && p@ == ws[i - 1]),
        invariant
            cands == views(candidates@),
            i <= MAX_WALK,
            ws.len() == i,
            reads.len() == i,
            sentence@ == spaced(ws),
            i > 0 ==> cands.contains(ws[0]),
            forall|k: int| 0 <= k < ws.len() - 1 ==> #[trigger] reads[k].contains(ws[k + 1]),
        ensures
            walk_ok(cands, ws, reads),
            sentence@ == spaced(ws),
        decreases MAX_WALK - i,
    {
        let picked = pick_word(&next, prev.as_ref());
        let successors = match &picked {
            Some(w) => get_vec_or_empty(read_words(db, w.as_str())),
            None => Vec::new(),
        };
        let ghost w0 = ws;
        let ghost r0 = reads;
        let (s, go) = walk_step(sentence, picked.clone(), &successors, i);
        sentence = s;
        match picked {
            None => {
                proof {
                    assert(walk_ok(cands, ws, reads)) by {
                        assert forall|k: int|
                            0 <= k < ws.len() && sure_pick(lower_of(#[trigger] ws[k]))
                                && reads[k].len() > 0 && k + 1 < MAX_WALK implies k + 1
                            < ws.len() by {
                            if k == ws.len() - 1 {
                                assert(views(next@).len() == next@.len());
                            }
                        }
                    }
                }
                break;
            },
            Some(word) => {
                proof {
                    ws = ws.push(word@);
                    reads = reads.push(views(successors@));
                    assert(ws.drop_last() == w0);
                    assert(sentence@ =~= spaced(ws));
                    if i == 0 {
                        assert(ws[0] == word@);
                    } else {
                        assert(ws[0] == w0[0]);
                        assert(ws[i - 1] == w0[i - 1]);
                        assert(views(next@).contains(word@));
                    }
                    assert forall|k: int| 0 <= k < ws.len() - 1 implies #[trigger] reads[k].contains(
                        ws[k + 1],
                    ) by {
                        if k < i - 1 {
                            assert(reads[k] == r0[k] && ws[k + 1] == w0[k + 1]);
                        } else {
                            assert(reads[k] == r0[k] && ws[k + 1] == word@);
                        }
                    }
                }
                i += 1;
                if !go {
                    proof {
                        assert(views(successors@).len() == successors@.len());
                        assert(walk_ok(cands, ws, reads)) by {
                            assert forall|k: int|
                                0 <= k < ws.len() && sure_pick(lower_of(#[trigger] ws[k]))
                                    && reads[k].len() > 0 && k + 1 < MAX_WALK implies k + 1
                                < ws.len() by {}
                        }
                    }
                    break;
                }
                prev = Some(word);
                next = successors;
            },
        }
    }
    proof {
        if candidates@.len() == 0 && ws.len() > 0 {
            let k = choose|k: int| 0 <= k < cands.len() && cands[k] == ws[0];
            assert(false);
        }
    }
    (sentence, Ghost((ws, reads)))
}

/// The walked text, trimmed, ends in a comma: the sentence goes on.
pub open spec fn ends_in_comma(walked: Seq<char>) -> bool {
    trim_end(walked).len() > 0 && trim_end(walked).last() == ','
}

/// Whether a walked text, once trimmed, ends in a comma.
pub fn needs_continuation(walked: &String) -> (r: bool)
    ensures
        r == ends_in_comma(walked@),
{
    let t = chars_of(trim_trailing(walked).as_str());
    t.len() > 0 && t[t.len() - 1] == ','
}

/// The sentence made of a walked text and, where one is given, the text
/// that continues it.
pub open spec fn finished(walked: Seq<char>, continuation: Option<Seq<char>>) -> Seq<char> {
    match continuation {
        Some(c) => punctuated(trim_end(trim_end(walked).push(' ') + c)),
        None => punctuated(trim_end(walked)),
    }
}

/// Closes a walked text as a sentence: trims it; where a continuation is
/// given, appends a space and the continuation and trims again; then closes
/// it with `punctuate`.
pub fn finish_sentence(walked: String, continuation: Option<String>) -> (r: String)
    ensures
        r@ == finished(
            walked@,
            match continuation {
                Some(c) => Some(c@),
                None => None,
            },
        ),
        ends_terminal(r@),
{
    let mut sentence = trim_trailing(&walked);
    match continuation {
        Some(c) => {
            push_char(&mut sentence, ' ');
            sentence.append(c.as_str());
            sentence = trim_trailing(&sentence);
        },
        None => {},
    }
    punctuate(sentence)
}

/// `r` is a sentence made from a walk over `words`: the walk's text, closed
/// by `finished`, with a continuation exactly when the walked text ends in a
/// comma; the continuation is empty or a closed sentence.
pub open spec fn sentence_from(words: Seq<Seq<char>>, r: Seq<char>) -> bool {
    exists|ws: Seq<Seq<char>>, reads: Seq<Seq<Seq<char>>>, c: Option<Seq<char>>|
        #![trigger walk_ok(words, ws, reads), finished(spaced(ws), c)]
        walk_ok(words, ws, reads) && (c is Some <==> ends_in_comma(spaced(ws))) && (c matches Some(
            x,
        ) ==> x.len() == 0 || ends_terminal(x)) && r == finished(spaced(ws), c)
}

/// One sentence from `words` at recursion level `level`. Past `MAX_LEVEL`
/// the result is empty. A walk whose trimmed text ends in a comma is
/// continued by a sentence from the scope's starting words one level deeper;
/// the text is then closed by `finish_sentence`, and where that leaves a lone
/// `.`, the walk from `words` is tried again one level deeper. The result is
/// never a lone `.`.
pub fn build_sentence(db: &NamespaceMicrokv, words: &Vec<String>, level: u8) -> (r: String)
    ensures
        level > MAX_LEVEL ==> r@.len() == 0,
        words@.len() == 0 ==> r@.len() == 0,
        r@.len() == 0 || ends_terminal(r@),
        r@ != "."@,
        r@.len() > 0 ==> sentence_from(views(words@), r@),
    decreases MAX_LEVEL + 1 - level,
{
    proof {
        reveal_strlit(".");
    }
    if level > MAX_LEVEL {
        return String::new();
    }
    let (walked, log) = walk(db, words);
    let ghost ws = log@.0;
    let ghost reads = log@.1;
    let continuation = if needs_continuation(&walked) {
        Some(build_sentence(db, &get_starting_words(read_starting_words(db)), level + 1))
    } else {
        None
    };
    let ghost before = trim_end(walked@);
    let ghost c: Option<Seq<char>> = match &continuation {
        Some(x) => Some(x@),
        None => None,
    };
    let sentence = finish_sentence(walked, continuation);
    proof {
        assert(walk_ok(views(words@), ws, reads));
        assert(sentence@ == finished(spaced(ws), c));
        assert(sentence_from(views(words@), sentence@));
    }
    proof {
        if words@.len() == 0 {
            reveal_strlit("what");
            reveal_strlit("why");
            reveal_strlit("who");
            assert(before.len() == 0);
            assert(sentence@ =~= "."@);
        }
    }
    let out = chars_of(sentence.as_str());
    if same_chars(&out, ".") {
        return build_sentence(db, words, level + 1);
    }
    sentence
}

/// A generated sentence for the scope: a walk from its starting words at
/// level zero. Empty, or closed as a sentence, and never a lone `.`.
pub fn generate(db: &NamespaceMicrokv) -> (r: String)
    ensures
        r@.len() == 0 || ends_terminal(r@),
        r@ != "."@,
{
    build_sentence(db, &get_starting_words(read_starting_words(db)), 0)
}

} // verus!
