use luna::classify::{addresses_bot, channel_blacklisted, should_respond};
use luna::generate::{is_sure_pick, pick_goes_on, punctuate};
use luna::sanitize::{sanitize_str, sanitize_word};
use luna::text::{chars_of, contains_str, ends_with_str, trim_trailing};

#[test]
fn responds_to_latin_name_with_cue() {
    assert!(should_respond("Luna, what do you think?"));
}

#[test]
fn ignores_text_without_name() {
    assert!(!should_respond("hello there"));
}

#[test]
fn responds_to_cyrillic_name_with_cue() {
    assert!(should_respond("луна почему"));
}

#[test]
fn name_without_cue_is_ignored() {
    assert!(!should_respond("luna"));
    assert!(!should_respond("LUNA good night"));
}

#[test]
fn cue_inside_another_word_counts() {
    // "this" holds "is"
    assert!(should_respond("LUNA this"));
}

#[test]
fn uppercase_cyrillic_is_lowered() {
    assert!(should_respond("ЛУНА, что?"));
}

#[test]
fn lowered_text_check_is_case_sensitive() {
    assert!(addresses_bot("luna?"));
    assert!(!addresses_bot("LUNA?"));
}

#[test]
fn staff_channel_is_blacklisted() {
    assert!(channel_blacklisted("staff-lounge"));
}

#[test]
fn general_channel_is_open() {
    assert!(!channel_blacklisted("general"));
}

#[test]
fn exact_names_are_blacklisted() {
    assert!(channel_blacklisted("mods"));
    assert!(channel_blacklisted("lounge"));
    assert!(!channel_blacklisted("mods-corner"));
    assert!(!channel_blacklisted("the-lounge"));
    assert!(channel_blacklisted("private-talk"));
    assert!(channel_blacklisted("ban-appeals"));
}

#[test]
fn sanitize_word_strips_marks() {
    assert_eq!(sanitize_word(String::from("hi)there(")), "hithere");
    assert_eq!(sanitize_word(String::from("a|\"b\"")), "ab");
}

#[test]
fn sanitize_word_keeps_clean_word() {
    assert_eq!(sanitize_word(String::from("hithere")), "hithere");
    let once = sanitize_word(String::from("(x|y)"));
    assert_eq!(sanitize_word(once.clone()), once);
}

#[test]
fn sanitize_str_breaks_mass_mentions() {
    assert_eq!(sanitize_str(String::from("hi @everyone")), "hi @\u{200B}everyone");
    assert_eq!(sanitize_str(String::from("@here now")), "@\u{200B}here now");
    assert_eq!(sanitize_str(String::from("@someone")), "@someone");
}

#[test]
fn sanitize_str_escapes_markup() {
    assert_eq!(sanitize_str(String::from("*bold* `code`")), "\\*bold\\* \\`code\\`");
}

#[test]
fn punctuate_adds_period() {
    assert_eq!(punctuate(String::from("hello there")), "hello there.");
    assert_eq!(punctuate(String::new()), ".");
}

#[test]
fn punctuate_adds_question_mark_after_question_words() {
    assert_eq!(punctuate(String::from("so what")), "so what?");
    assert_eq!(punctuate(String::from("but why")), "but why?");
    assert_eq!(punctuate(String::from("guess who")), "guess who?");
}

#[test]
fn punctuate_keeps_terminal_marks() {
    assert_eq!(punctuate(String::from("done.")), "done.");
    assert_eq!(punctuate(String::from("really?")), "really?");
    assert_eq!(punctuate(String::from("wow!")), "wow!");
}

#[test]
fn trims_trailing_white_space_only() {
    assert_eq!(trim_trailing(&String::from(" a b \t\n ")), " a b");
    assert_eq!(trim_trailing(&String::from("   ")), "");
}

#[test]
fn sure_picks_and_rolls() {
    assert!(is_sure_pick("the"));
    assert!(is_sure_pick("i'm"));
    assert!(!is_sure_pick("them"));
    assert!(pick_goes_on(20, true));
    assert!(!pick_goes_on(20, false));
    assert!(pick_goes_on(21, false));
}

#[test]
fn substring_helpers() {
    let s = chars_of("abcabd");
    assert!(contains_str(&s, "cab"));
    assert!(!contains_str(&s, "abe"));
    assert!(contains_str(&s, ""));
    assert!(ends_with_str(&s, "abd"));
    assert!(!ends_with_str(&s, "abc"));
}
