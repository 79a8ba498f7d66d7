//! Learning from a message: starting words and bounded successor lists.

use vstd::prelude::*;
use microkv::namespace::NamespaceMicrokv;
use crate::sanitize::{sanitize_word, strip_marks};
use crate::store::{get_starting_words, get_vec_or_empty, put_words, read_starting_words, read_words, STARTING_WORDS_KEY};
use crate::text::{chars_of, push_char};

verus! {

/// The most successors kept for one word.
pub const MAX_SUCCESSORS: usize = 64;

/// The character sequences of a list of strings.
pub open spec fn views(v: Seq<String>) -> Seq<Seq<char>> {
    v.map_values(|w: String| w@)
}

/// `s` split at every space, as `str::split(' ')` splits it: empty pieces
/// are kept, and there is always at least one piece.
pub open spec fn split_spaces(s: Seq<char>) -> Seq<Seq<char>>
    decreases s.len(),
{
    if s.len() == 0 {
        seq![Seq::empty()]
    } else {
        let init = split_spaces(s.drop_last());
        if s.last() == ' ' {
            init.push(Seq::empty())
        } else {
            init.update(init.len() - 1, init.last().push(s.last()))
        }
    }
}

/// Splitting always gives at least one piece.
pub proof fn lemma_split_nonempty(s: Seq<char>)
    ensures
        split_spaces(s).len() >= 1,
    decreases s.len(),
{
    if s.len() > 0 {
        lemma_split_nonempty(s.drop_last());
    }
}

/// The tokens of a message: its text split at every space.
pub fn split_tokens(text: &str) -> (r: Vec<String>)
    ensures
        views(r@) == split_spaces(text@),
{
    let cs = chars_of(text);
    let mut done: Vec<String> = Vec::new();
    let mut cur = String::new();
    let mut i: usize = 0;
    proof {
        assert(cs@.take(0) == Seq::<char>::empty());
        assert(views(done@).push(cur@) =~= split_spaces(cs@.take(0)));
    }
    while i < cs.len()
        invariant
            cs@ == text@,
            i <= cs@.len(),
            views(done@).push(cur@) == split_spaces(cs@.take(i as int)),
        decreases cs@.len() - i,
    {
        let c = cs[i];
        proof {
            lemma_split_nonempty(cs@.take(i as int));
            assert(cs@.take(i + 1).drop_last() == cs@.take(i as int));
        }
        if c == ' ' {
            let piece = cur;
            let ghost d0 = views(done@);
            done.push(piece);
            cur = String::new();
            proof {
                assert(views(done@) =~= d0.push(piece@));
                assert(views(done@).push(cur@) =~= split_spaces(cs@.take(i + 1)));
            }
        } else {
            push_char(&mut cur, c);
            proof {
                assert(views(done@).push(cur@) =~= split_spaces(cs@.take(i + 1)));
            }
        }
        i += 1;
    }
    done.push(cur);
    proof {
        assert(cs@.take(cs@.len() as int) == cs@);
        assert(views(done@) =~= split_spaces(text@));
    }
    done
}


/// `s` with each value kept only where it first occurs, in order.
pub open spec fn dedup_first(s: Seq<Seq<char>>) -> Seq<Seq<char>>
    decreases s.len(),
{
    if s.len() == 0 {
        s
    } else if s.drop_last().contains(s.last()) {
        dedup_first(s.drop_last())
    } else {
        dedup_first(s.drop_last()).push(s.last())
    }
}

/// `dedup_first` keeps every value of `s` and adds none.
pub proof fn lemma_dedup_contains(s: Seq<Seq<char>>, x: Seq<char>)
    ensures
        dedup_first(s).contains(x) == s.contains(x),
    decreases s.len(),
{
    if s.len() > 0 {
        let p = s.drop_last();
        lemma_dedup_contains(p, x);
        lemma_dedup_contains(p, s.last());
        assert(s == p.push(s.last()));
        if s.contains(x) {
            let i = choose|i: int| 0 <= i < s.len() && s[i] == x;
            if i < p.len() {
                assert(p[i] == x);
            }
        }
        if p.contains(x) {
            let i = choose|i: int| 0 <= i < p.len() && p[i] == x;
            assert(s[i] == x);
        }
        let d = dedup_first(p);
        if d.push(s.last()).contains(x) && x != s.last() {
            let i = choose|i: int| 0 <= i < d.push(s.last()).len() && d.push(s.last())[i] == x;
            assert(d[i] == x);
        }
        if d.contains(x) {
            let i = choose|i: int| 0 <= i < d.len() && d[i] == x;
            assert(d.push(s.last())[i] == x);
        }
        assert(d.push(s.last())[d.len() as int] == s.last());
    }
}

/// The starting-word list never holds a value twice.
pub proof fn lemma_dedup_unique(s: Seq<Seq<char>>)
    ensures
        dedup_first(s).no_duplicates(),
    decreases s.len(),
{
    if s.len() > 0 {
        let p = s.drop_last();
        lemma_dedup_unique(p);
        lemma_dedup_contains(p, s.last());
        let d = dedup_first(p);
        let e = d.push(s.last());
        if !p.contains(s.last()) {
            assert forall|i: int, j: int|
                0 <= i < e.len() && 0 <= j < e.len() && i != j implies e[i] != e[j] by {
                if i < d.len() && j < d.len() {
                    assert(e[i] == d[i] && e[j] == d[j]);
                } else if i < d.len() {
                    assert(e[i] == d[i]);
                } else if j < d.len() {
                    assert(e[j] == d[j]);
                }
            }
        }
    }
}

/// A list without duplicates is its own `dedup_first`.
pub proof fn lemma_dedup_of_unique(s: Seq<Seq<char>>)
    requires
        s.no_duplicates(),
    ensures
        dedup_first(s) == s,
    decreases s.len(),
{
    if s.len() > 0 {
        let p = s.drop_last();
        assert(p.no_duplicates()) by {
            assert forall|i: int, j: int|
                0 <= i < p.len() && 0 <= j < p.len() && i != j implies p[i] != p[j] by {
                assert(p[i] == s[i] && p[j] == s[j]);
            }
        }
        lemma_dedup_of_unique(p);
        if p.contains(s.last()) {
            let i = choose|i: int| 0 <= i < p.len() && p[i] == s.last();
            assert(s[i] == s[s.len() - 1]);
        }
        assert(p.push(s.last()) == s);
    }
}

/// Recording first words one message at a time gives the same list as
/// recording all of them at once: the list holds each first word once, in
/// the order in which it was first seen.
pub proof fn lemma_starting_words_step(seen: Seq<Seq<char>>, first: Seq<char>)
    ensures
        dedup_first(dedup_first(seen).push(first)) == dedup_first(seen.push(first)),
        dedup_first(seen.push(first)).no_duplicates(),
{
    let d = dedup_first(seen);
    lemma_dedup_unique(seen);
    lemma_dedup_of_unique(d);
    lemma_dedup_contains(seen, first);
    assert(d.push(first).drop_last() == d);
    assert(seen.push(first).drop_last() == seen);
    lemma_dedup_unique(seen.push(first));
}

/// Whether `w` is one of `words`.
fn holds_word(words: &Vec<String>, w: &String) -> (r: bool)
    ensures
        r == views(words@).contains(w@),
{
    let mut i: usize = 0;
    while i < words.len()
        invariant
            i <= words@.len(),
            forall|k: int| 0 <= k < i ==> words@[k]@ != w@,
        decreases words@.len() - i,
    {
        if words[i] == *w {
            assert(views(words@)[i as int] == w@);
            return true;
        }
        i += 1;
    }
    proof {
        if views(words@).contains(w@) {
            let k = choose|k: int| 0 <= k < views(words@).len() && views(words@)[k] == w@;
            assert(words@[k]@ == w@);
        }
    }
    false
}

/// The starting-word list after a message that begins with `first`: the
/// word is appended, then every repeated value is dropped, first occurrences
/// kept in order.
pub fn record_starting_word(words: Vec<String>, first: String) -> (r: Vec<String>)
    ensures
        views(r@) == dedup_first(views(words@).push(first@)),
{
    let mut all = words;
    all.push(first);
    let ghost src = views(all@);
    let mut out: Vec<String> = Vec::new();
    let mut i: usize = 0;
    while i < all.len()
        invariant
            src == views(all@),
            i <= all@.len(),
            views(out@) == dedup_first(src.take(i as int)),
        decreases all@.len() - i,
    {
        let w = all[i].clone();
        proof {
            assert(src.take(i + 1).drop_last() =~= src.take(i as int));
            assert(src.take(i + 1).last() == w@);
            lemma_dedup_contains(src.take(i as int), w@);
        }
        if !holds_word(&out, &w) {
            let ghost o0 = views(out@);
            out.push(w);
            proof {
                assert(views(out@) =~= o0.push(all@[i as int]@));
            }
        }
        i += 1;
    }
    proof {
        assert(src.take(all@.len() as int) == src);
        assert(src =~= views(words@).push(first@));
    }
    out
}

/// `s` with `w` appended, the oldest entry evicted first when `s` already
/// holds the most successors kept.
pub open spec fn bounded_push(s: Seq<Seq<char>>, w: Seq<char>) -> Seq<Seq<char>> {
    if s.len() >= MAX_SUCCESSORS {
        s.drop_first().push(w)
    } else {
        s.push(w)
    }
}

/// The last entries of `s`, at most as many as a successor list keeps.
pub open spec fn recent(s: Seq<Seq<char>>) -> Seq<Seq<char>> {
    if s.len() <= MAX_SUCCESSORS {
        s
    } else {
        s.subrange(s.len() - MAX_SUCCESSORS, s.len() as int)
    }
}

/// A successor list after the observations `obs`, in order.
pub open spec fn successors_after(s: Seq<Seq<char>>, obs: Seq<Seq<char>>) -> Seq<Seq<char>>
    decreases obs.len(),
{
    if obs.len() == 0 {
        s
    } else {
        bounded_push(successors_after(s, obs.drop_last()), obs.last())
    }
}

/// A successor list that starts within the bound stays within it whatever is
/// observed, and holds exactly the most recent observations.
pub proof fn lemma_successor_window(s: Seq<Seq<char>>, obs: Seq<Seq<char>>)
    requires
        s.len() <= MAX_SUCCESSORS,
    ensures
        successors_after(s, obs) == recent(s + obs),
        successors_after(s, obs).len() <= MAX_SUCCESSORS,
    decreases obs.len(),
{
    if obs.len() == 0 {
        assert(s + obs == s);
    } else {
        let p = obs.drop_last();
        let w = obs.last();
        lemma_successor_window(s, p);
        let a = s + p;
        assert(s + obs == a.push(w));
        if a.len() < MAX_SUCCESSORS {
        } else {
            assert(recent(a).drop_first().push(w) =~= recent(a.push(w)));
        }
    }
}

/// Appends `w` to a successor list, evicting the oldest entry first when the
/// list already holds the most successors kept.
pub fn push_bounded(list: Vec<String>, w: String) -> (r: Vec<String>)
    ensures
        views(r@) == bounded_push(views(list@), w@),
{
    let mut l = list;
    let ghost l0 = views(l@);
    if l.len() >= MAX_SUCCESSORS {
        l.remove(0);
        proof {
            assert(views(l@) =~= l0.drop_first());
        }
    }
    let ghost l1 = views(l@);
    l.push(w);
    proof {
        assert(views(l@) =~= l1.push(w@));
    }
    l
}

/// A word's successor list after `next` was seen to follow it: `next` is
/// sanitized, then appended within the bound.
pub fn record_successor(list: Vec<String>, next: String) -> (r: Vec<String>)
    ensures
        views(r@) == bounded_push(views(list@), strip_marks(next@)),
{
    push_bounded(list, sanitize_word(next))
}

/// The updates that learning from tokens `t` makes: for each adjacent pair,
/// the first token as key (as typed) and the second, sanitized, as its new
/// successor. Fewer than two tokens make none.
pub open spec fn pair_updates(t: Seq<Seq<char>>) -> Seq<(Seq<char>, Seq<char>)> {
    if t.len() < 2 {
        Seq::empty()
    } else {
        Seq::new((t.len() - 1) as nat, |i: int| (t[i], strip_marks(t[i + 1])))
    }
}

/// A message of fewer than two tokens makes no successor update.
pub proof fn lemma_short_message_updates_nothing(t: Seq<Seq<char>>)
    requires
        t.len() < 2,
    ensures
        pair_updates(t) == Seq::<(Seq<char>, Seq<char>)>::empty(),
{
}

/// The successor updates for the tokens of a message, one per adjacent pair,
/// in order.
pub fn successor_pairs(tokens: &Vec<String>) -> (r: Vec<(String, String)>)
    ensures
        r@.len() == pair_updates(views(tokens@)).len(),
        forall|i: int|
            0 <= i < r@.len() ==> (#[trigger] r@[i].0@, r@[i].1@) == pair_updates(
                views(tokens@),
            )[i],
{
    let mut r: Vec<(String, String)> = Vec::new();
    if tokens.len() < 2 {
        return r;
    }
    let ghost t = views(tokens@);
    let n = tokens.len() - 1;
    let mut i: usize = 0;
    while i < n
        invariant
            n == tokens@.len() - 1,
            t == views(tokens@),
            tokens@.len() >= 2,
            i + 1 <= tokens@.len(),
            r@.len() == i,
            forall|k: int| 0 <= k < i ==> (#[trigger] r@[k].0@, r@[k].1@) == pair_updates(t)[k],
        decreases tokens@.len() - i,
    {
        let key = tokens[i].clone();
        let next = sanitize_word(tokens[i + 1].clone());
        r.push((key, next));
        i += 1;
    }
    r
}

/// A write of the starting-word list after a message that begins with
/// `first`: under the reserved key, the list read before with `first` added
/// and repeats dropped.
pub open spec fn is_start_write(e: (Seq<char>, Seq<Seq<char>>), first: Seq<char>) -> bool {
    e.0 == STARTING_WORDS_KEY@ && exists|prev: Seq<Seq<char>>|
        #[trigger] dedup_first(prev.push(first)) == e.1
}

/// A write of the successor list of `key` after `next` was seen to follow
/// it: under the raw key, the list read before with the sanitized `next`
/// appended within the bound.
pub open spec fn is_pair_write(e: (Seq<char>, Seq<Seq<char>>), key: Seq<char>, next: Seq<char>) -> bool {
    e.0 == key && exists|prev: Seq<Seq<char>>| #[trigger] bounded_push(prev, strip_marks(next)) == e.1
}

/// The writes that learning from tokens `t` asks of the store, in order, as
/// recorded in `log`: the starting-word list first, then one successor list
/// per adjacent pair.
pub open spec fn learn_log_ok(t: Seq<Seq<char>>, log: Seq<(Seq<char>, Seq<Seq<char>>)>) -> bool {
    &&& log.len() <= t.len()
    &&& (log.len() > 0 ==> is_start_write(log[0], t[0]))
    &&& forall|k: int| 1 <= k < log.len() ==> #[trigger] is_pair_write(log[k], t[k - 1], t[k])
}

/// Learns from one message of a scope. Returns how many writes to the store
/// succeeded, with the log of every write asked of the store, in order. A
/// message of fewer than two tokens asks for none. The starting-word list is
/// written first; then, pair by pair, the key's stored list gets the
/// sanitized successor within the bound. The first failed write ends the
/// step: it is the last one logged. What the store holds beforehand, and
/// whether it accepts a write, is up to the store.
pub fn learn_message(db: &NamespaceMicrokv, text: &str) -> (r: (usize, Ghost<Seq<(Seq<char>, Seq<Seq<char>>)>>))
    ensures
        learn_log_ok(split_spaces(text@), r.1@),
        split_spaces(text@).len() < 2 ==> r.0 == 0 && r.1@.len() == 0,
        r.0 <= r.1@.len() <= r.0 + 1,
        r.1@.len() < split_spaces(text@).len() ==> r.1@.len() == r.0 + 1 || r.1@.len() == 0,
        split_spaces(text@).len() >= 2 ==> r.1@.len() >= 1,
{
    let ghost mut log: Seq<(Seq<char>, Seq<Seq<char>>)> = Seq::empty();
    let tokens = split_tokens(text);
    let ghost t = views(tokens@);
    if tokens.len() < 2 {
        return (0, Ghost(log));
    }
    let read = get_starting_words(read_starting_words(db));
    let first = tokens[0].clone();
    let first_words = record_starting_word(read, first);
    proof {
        log = log.push((STARTING_WORDS_KEY@, views(first_words@)));
        assert(t[0] == first@);
        assert(dedup_first(views(read@).push(t[0])) == log[0].1);
    }
    if !put_words(db, STARTING_WORDS_KEY, &first_words) {
        return (0, Ghost(log));
    }
    let nt = tokens.len();
    let pairs = successor_pairs(&tokens);
    let mut written: usize = 1;
    let mut i: usize = 0;
    while i < pairs.len()
        invariant
            pairs@.len() == tokens@.len() - 1,
            nt == tokens@.len(),
            t == views(tokens@),
            t == split_spaces(text@),
            t.len() >= 2,
            i <= pairs@.len(),
            written == i + 1,
            log.len() == i + 1,
            learn_log_ok(t, log),
            forall|k: int|
                0 <= k < pairs@.len() ==> (#[trigger] pairs@[k].0@, pairs@[k].1@) == pair_updates(t)[k],
        decreases pairs@.len() - i,
    {
        let key = pairs[i].0.as_str();
        let next = pairs[i].1.clone();
        let read = get_vec_or_empty(read_words(db, key));
        let updated = push_bounded(read, next);
        proof {
            let ghost old_log = log;
            log = log.push((key@, views(updated@)));
            assert((pairs@[i as int].0@, pairs@[i as int].1@) == pair_updates(t)[i as int]);
            assert(bounded_push(views(read@), strip_marks(t[i + 1])) == log[i + 1].1);
            assert(is_pair_write(log[i + 1], t[i as int], t[i + 1]));
            assert forall|k: int| 1 <= k < log.len() implies #[trigger] is_pair_write(
                log[k],
                t[k - 1],
                t[k],
            ) by {
                if k < old_log.len() {
                    assert(log[k] == old_log[k]);
                }
            }
            assert(log[0] == old_log[0]);
        }
        if !put_words(db, key, &updated) {
            return (written, Ghost(log));
        }
        written += 1;
        i += 1;
    }
    (written, Ghost(log))
}

} // verus!
