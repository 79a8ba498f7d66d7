use luna::generate::{build_sentence, finish_sentence, generate, needs_continuation, walk_step};
use luna::handler::{learn_from, reply_for, reply_text};
use luna::learn::{
    learn_message, push_bounded, record_starting_word, record_successor, split_tokens,
    successor_pairs,
};
use luna::store::{get_starting_words, get_vec_or_empty, read_starting_words, read_words};
use microkv::MicroKV;

fn strings(words: &[&str]) -> Vec<String> {
    words.iter().map(|w| w.to_string()).collect()
}

#[test]
fn split_keeps_empty_pieces() {
    assert_eq!(split_tokens("a b c"), strings(&["a", "b", "c"]));
    assert_eq!(split_tokens("a  b"), strings(&["a", "", "b"]));
    assert_eq!(split_tokens(""), strings(&[""]));
    assert_eq!(split_tokens("word"), strings(&["word"]));
}

#[test]
fn pairs_cover_adjacent_tokens_only() {
    let pairs = successor_pairs(&strings(&["a", "b", "c"]));
    assert_eq!(
        pairs,
        vec![
            (String::from("a"), String::from("b")),
            (String::from("b"), String::from("c"))
        ]
    );
}

#[test]
fn pairs_sanitize_values_not_keys() {
    let pairs = successor_pairs(&strings(&["(x)", "(y)"]));
    assert_eq!(pairs, vec![(String::from("(x)"), String::from("y"))]);
}

#[test]
fn single_token_makes_no_pairs() {
    assert!(successor_pairs(&strings(&["alone"])).is_empty());
    assert!(successor_pairs(&Vec::new()).is_empty());
}

#[test]
fn starting_words_stay_unique() {
    let w = record_starting_word(Vec::new(), String::from("a"));
    let w = record_starting_word(w, String::from("b"));
    let w = record_starting_word(w, String::from("a"));
    assert_eq!(w, strings(&["a", "b"]));
    let w = record_starting_word(w, String::from("c"));
    assert_eq!(w, strings(&["a", "b", "c"]));
}

#[test]
fn starting_words_drop_old_repeats() {
    let w = record_starting_word(strings(&["x", "y", "x"]), String::from("y"));
    assert_eq!(w, strings(&["x", "y"]));
}

#[test]
fn successor_list_is_bounded() {
    let mut list: Vec<String> = Vec::new();
    for i in 0..70 {
        list = push_bounded(list, format!("w{}", i));
        assert!(list.len() <= 64);
    }
    assert_eq!(list.len(), 64);
    assert_eq!(list[0], "w6");
    assert_eq!(list[63], "w69");
}

#[test]
fn successor_below_bound_is_appended() {
    let list = record_successor(strings(&["a"]), String::from("b|"));
    assert_eq!(list, strings(&["a", "b"]));
}

#[test]
fn learning_records_pairs() {
    let kv = MicroKV::new("luna_learning_records_pairs");
    let db = kv.namespace("1");
    assert_eq!(learn_message(&db, "a b c").0, 3);
    assert_eq!(get_starting_words(read_starting_words(&db)), strings(&["a"]));
    assert_eq!(get_vec_or_empty(read_words(&db, "a")), strings(&["b"]));
    assert_eq!(get_vec_or_empty(read_words(&db, "b")), strings(&["c"]));
    assert!(get_vec_or_empty(read_words(&db, "c")).is_empty());
}

#[test]
fn learning_repeated_word_sees_its_own_write() {
    let kv = MicroKV::new("luna_learning_repeated");
    let db = kv.namespace("1");
    assert_eq!(learn_message(&db, "a b a c").0, 4);
    assert_eq!(get_vec_or_empty(read_words(&db, "a")), strings(&["b", "c"]));
    assert_eq!(get_vec_or_empty(read_words(&db, "b")), strings(&["a"]));
}

#[test]
fn learning_single_token_is_noop() {
    let kv = MicroKV::new("luna_learning_single");
    let db = kv.namespace("1");
    assert_eq!(learn_message(&db, "hello").0, 0);
    assert_eq!(learn_message(&db, "").0, 0);
    assert!(get_starting_words(read_starting_words(&db)).is_empty());
    assert!(get_vec_or_empty(read_words(&db, "hello")).is_empty());
}

#[test]
fn scopes_are_separate() {
    let kv = MicroKV::new("luna_scopes");
    let one = kv.namespace("1");
    let two = kv.namespace("2");
    learn_message(&one, "x y");
    assert!(get_starting_words(read_starting_words(&two)).is_empty());
    assert!(get_vec_or_empty(read_words(&two, "x")).is_empty());
}

#[test]
fn blacklisted_channel_learns_nothing() {
    let kv = MicroKV::new("luna_blacklisted");
    let db = kv.namespace("1");
    assert_eq!(learn_from(&db, "staff-room", "a b").0, 0);
    assert!(get_starting_words(read_starting_words(&db)).is_empty());
    assert_eq!(learn_from(&db, "general", "a b").0, 2);
}

#[test]
fn empty_scope_generates_nothing() {
    let kv = MicroKV::new("luna_empty_scope");
    let db = kv.namespace("1");
    assert_eq!(generate(&db), "");
    assert_eq!(build_sentence(&db, &Vec::new(), 0), "");
}

#[test]
fn past_the_last_level_nothing_is_generated() {
    let kv = MicroKV::new("luna_past_level");
    let db = kv.namespace("1");
    assert_eq!(build_sentence(&db, &strings(&["a"]), 11), "");
}

#[test]
fn generation_walks_learned_words() {
    let kv = MicroKV::new("luna_generation");
    let db = kv.namespace("1");
    learn_message(&db, "hello world.");
    let s = generate(&db);
    assert!(s == "hello world." || s == "hello.", "got {:?}", s);
}

#[test]
fn reply_text_skips_empty_output() {
    assert_eq!(reply_text(String::new()), None);
    assert_eq!(reply_text(String::from(".")), None);
    assert_eq!(reply_text(String::from("*hi*.")), Some(String::from("\\*hi\\*.")));
}

#[test]
fn reply_for_plain_text_is_none() {
    let kv = MicroKV::new("luna_reply_plain");
    let db = kv.namespace("1");
    learn_message(&db, "hello world.");
    assert_eq!(reply_for(&db, "hello there"), None);
    let r = reply_for(&db, "luna what?");
    assert!(
        r.is_none() || r == Some(String::from("hello world.")) || r == Some(String::from("hello.")),
        "got {:?}",
        r
    );
}

#[test]
fn missing_lookup_reads_as_empty() {
    assert!(get_vec_or_empty(None).is_empty());
    assert!(get_starting_words(None).is_empty());
    assert_eq!(get_starting_words(Some(strings(&["a", "b"]))), strings(&["a", "b"]));
}

#[test]
fn walk_step_appends_and_decides() {
    let (s, go) = walk_step(String::from("a "), Some(String::from("b")), &strings(&["c"]), 0);
    assert_eq!(s, "a b ");
    assert!(go);
    let (s, go) = walk_step(String::from("a "), Some(String::from("b")), &Vec::new(), 0);
    assert_eq!(s, "a b ");
    assert!(!go);
    let (s, go) = walk_step(String::from("a "), Some(String::from("b")), &strings(&["c"]), 47);
    assert_eq!(s, "a b ");
    assert!(!go);
    let (s, go) = walk_step(String::from("a "), None, &strings(&["c"]), 0);
    assert_eq!(s, "a ");
    assert!(!go);
}

#[test]
fn finish_closes_walked_text() {
    assert_eq!(finish_sentence(String::from("why "), None), "why?");
    assert_eq!(finish_sentence(String::from("hello "), None), "hello.");
    assert_eq!(finish_sentence(String::new(), None), ".");
    assert_eq!(
        finish_sentence(String::from("well, "), Some(String::from("sure!"))),
        "well, sure!"
    );
    assert_eq!(finish_sentence(String::from("well, "), Some(String::new())), "well,.");
}

#[test]
fn comma_asks_for_continuation() {
    assert!(needs_continuation(&String::from("so, ")));
    assert!(!needs_continuation(&String::from("so ")));
    assert!(!needs_continuation(&String::new()));
}

#[test]
fn generation_is_never_a_lone_period() {
    let kv = MicroKV::new("luna_lone_period");
    let db = kv.namespace("1");
    learn_message(&db, ". .");
    for _ in 0..20 {
        assert_ne!(generate(&db), ".");
    }
}
