//! Cleaning learned words and outgoing sentences.

use vstd::prelude::*;
use crate::text::{chars_of, occurs_at, push_char};

verus! {

/// The characters removed from a word before it is stored.
pub open spec fn is_mark(c: char) -> bool {
    c == ')' || c == '(' || c == '|' || c == '"'
}

/// `s` without its marks, the other characters kept in order.
pub open spec fn strip_marks(s: Seq<char>) -> Seq<char>
    decreases s.len(),
{
    if s.len() == 0 {
        s
    } else if is_mark(s.last()) {
        strip_marks(s.drop_last())
    } else {
        strip_marks(s.drop_last()).push(s.last())
    }
}

/// Removes `)`, `(`, `|` and `"` from a word.
pub fn sanitize_word(word: String) -> (r: String)
    ensures
        r@ == strip_marks(word@),
{
    let cs = chars_of(word.as_str());
    let mut r = String::new();
    let mut i: usize = 0;
    while i < cs.len()
        invariant
            cs@ == word@,
            i <= cs@.len(),
            r@ == strip_marks(cs@.take(i as int)),
        decreases cs@.len() - i,
    {
        let c = cs[i];
        proof {
            assert(cs@.take(i + 1).drop_last() == cs@.take(i as int));
        }
        if c != ')' && c != '(' && c != '|' && c != '"' {
            push_char(&mut r, c);
        }
        i += 1;
    }
    assert(cs@.take(cs@.len() as int) == cs@);
    r
}

/// A text without marks is left as it is.
pub proof fn lemma_strip_marks_unchanged(s: Seq<char>)
    requires
        forall|i: int| 0 <= i < s.len() ==> !is_mark(#[trigger] s[i]),
    ensures
        strip_marks(s) == s,
    decreases s.len(),
{
    if s.len() > 0 {
        let p = s.drop_last();
        assert forall|i: int| 0 <= i < p.len() implies !is_mark(#[trigger] p[i]) by {
            assert(p[i] == s[i]);
        }
        lemma_strip_marks_unchanged(p);
        assert(!is_mark(s[s.len() - 1]));
        assert(p.push(s.last()) == s);
    }
}

/// What `strip_marks` gives holds no mark.
pub proof fn lemma_strip_marks_clean(s: Seq<char>)
    ensures
        forall|i: int|
            0 <= i < strip_marks(s).len() ==> !is_mark(#[trigger] strip_marks(s)[i]),
    decreases s.len(),
{
    if s.len() > 0 {
        let p = s.drop_last();
        lemma_strip_marks_clean(p);
        if !is_mark(s.last()) {
            let q = strip_marks(p);
            assert forall|i: int| 0 <= i < q.push(s.last()).len() implies !is_mark(
                #[trigger] q.push(s.last())[i],
            ) by {
                if i < q.len() {
                    assert(q.push(s.last())[i] == q[i]);
                }
            }
        }
    }
}

/// Sanitizing a word twice gives what sanitizing it once gives.
pub proof fn lemma_sanitize_word_idempotent(s: Seq<char>)
    ensures
        strip_marks(strip_marks(s)) == strip_marks(s),
{
    lemma_strip_marks_clean(s);
    lemma_strip_marks_unchanged(strip_marks(s));
}

/// The zero-width space put between `@` and a mass-mention word.
pub open spec fn zero_width() -> char {
    '\u{200B}'
}

/// The characters of `w` stand in `s` from position `at` on.
pub open spec fn word_at(s: Seq<char>, at: int, w: Seq<char>) -> bool {
    0 <= at && at + w.len() <= s.len() && s.subrange(at, at + w.len()) == w
}

/// Position `i` of `s` starts `@everyone` or `@here`.
pub open spec fn mass_mention_at(s: Seq<char>, i: int) -> bool {
    s[i] == '@' && (word_at(s, i + 1, "everyone"@) || word_at(s, i + 1, "here"@))
}

/// What the character at position `i` of `s` becomes in an outgoing text.
pub open spec fn escaped_piece(s: Seq<char>, i: int) -> Seq<char> {
    if mass_mention_at(s, i) {
        seq!['@', zero_width()]
    } else if s[i] == '*' {
        seq!['\\', '*']
    } else if s[i] == '`' {
        seq!['\\', '`']
    } else {
        seq![s[i]]
    }
}

/// The outgoing form of the first `n` characters of `s`.
pub open spec fn escaped_prefix(s: Seq<char>, n: int) -> Seq<char>
    decreases n,
{
    if n <= 0 {
        Seq::empty()
    } else {
        escaped_prefix(s, n - 1) + escaped_piece(s, n - 1)
    }
}

/// The outgoing form of `s`: mass mentions broken by a zero-width space,
/// `*` and `` ` `` escaped by a backslash.
pub open spec fn escaped(s: Seq<char>) -> Seq<char> {
    escaped_prefix(s, s.len() as int)
}

/// Makes a generated sentence safe to post.
pub fn sanitize_str(msg: String) -> (r: String)
    ensures
        r@ == escaped(msg@),
{
    let cs = chars_of(msg.as_str());
    let everyone = chars_of("everyone");
    let here = chars_of("here");
    let mut r = String::new();
    let mut i: usize = 0;
    while i < cs.len()
        invariant
            cs@ == msg@,
            everyone@ == "everyone"@,
            here@ == "here"@,
            i <= cs@.len(),
            r@ == escaped_prefix(cs@, i as int),
        decreases cs@.len() - i,
    {
        let c = cs[i];
        let r0 = Ghost(r@);
        if c == '@' && (occurs_at(&cs, &everyone, i + 1) || occurs_at(&cs, &here, i + 1)) {
            push_char(&mut r, '@');
            push_char(&mut r, '\u{200B}');
            assert(r@ == r0@ + seq!['@', zero_width()]);
        } else if c == '*' {
            push_char(&mut r, '\\');
            push_char(&mut r, '*');
            assert(r@ == r0@ + seq!['\\', '*']);
        } else if c == '`' {
            push_char(&mut r, '\\');
            push_char(&mut r, '`');
            assert(r@ == r0@ + seq!['\\', '`']);
        } else {
            push_char(&mut r, c);
            assert(r@ == r0@ + seq![c]);
        }
        i += 1;
    }
    r
}

} // verus!
