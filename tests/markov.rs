use markov::{Database, MarkovError, Prefix, Sentence};

fn prefix(a: &str, b: &str) -> Prefix {
    (a.to_string(), b.to_string())
}

fn strings(words: &[&str]) -> Vec<String> {
    words.iter().map(|w| w.to_string()).collect()
}

#[test]
fn sentence_splits_on_runs_of_whitespace() {
    let s = Sentence::from("  one\ttwo \n three  ");
    assert_eq!(s.words(), &strings(&["one", "two", "three"]));
    assert_eq!(s.len(), 3);
}

#[test]
fn sentence_from_owned_string() {
    let s = Sentence::from(String::from("Hello, World! hello"));
    assert_eq!(s.words(), &strings(&["Hello,", "World!", "hello"]));
}

#[test]
fn sentence_splits_on_unicode_whitespace() {
    let s = Sentence::from("a\u{3000}b\u{a0}c\u{2028}d");
    assert_eq!(s.words(), &strings(&["a", "b", "c", "d"]));
}

#[test]
fn sentence_of_blank_text_is_empty() {
    assert_eq!(Sentence::from("").len(), 0);
    assert_eq!(Sentence::from(" \t\n ").len(), 0);
}

#[test]
fn sentence_clone_keeps_words() {
    let s = Sentence::from("x y z");
    let c = s.clone();
    assert_eq!(c.words(), s.words());
}

#[test]
fn short_sentences_are_refused() {
    let mut db = Database::new();
    for text in ["", "one", "one two"] {
        let r = db.parse(Sentence::from(text));
        assert!(matches!(r, Err(MarkovError::InsufficientLength)));
    }
    assert!(db.complete(&prefix("one", "two")).is_none());
}

#[test]
fn short_sentence_leaves_table_unchanged() {
    let mut db = Database::new();
    assert!(db.parse(Sentence::from("a b c")).is_ok());
    assert!(db.parse(Sentence::from("a b")).is_err());
    assert_eq!(db.complete(&prefix("a", "b")), Some(&strings(&["c"])));
}

#[test]
fn three_words_give_one_observation() {
    let mut db = Database::new();
    assert!(db.parse(Sentence::from("a b c")).is_ok());
    assert_eq!(db.complete(&prefix("a", "b")), Some(&strings(&["c"])));
    assert!(db.complete(&prefix("b", "c")).is_none());
}

#[test]
fn four_words_give_two_observations() {
    let mut db = Database::new();
    assert!(db.parse(Sentence::from("a b c d")).is_ok());
    assert_eq!(db.complete(&prefix("a", "b")), Some(&strings(&["c"])));
    assert_eq!(db.complete(&prefix("b", "c")), Some(&strings(&["d"])));
    assert!(db.complete(&prefix("c", "d")).is_none());
}

#[test]
fn repeated_window_collects_every_follower() {
    let mut db = Database::new();
    assert!(db.parse(Sentence::from("a a a b")).is_ok());
    assert_eq!(db.complete(&prefix("a", "a")), Some(&strings(&["a", "b"])));
}

#[test]
fn training_twice_doubles_lists() {
    let mut db = Database::new();
    let s = Sentence::from("the cat sat on the cat mat");
    assert!(db.parse(s.clone()).is_ok());
    assert_eq!(db.complete(&prefix("the", "cat")), Some(&strings(&["sat", "mat"])));
    assert!(db.parse(s).is_ok());
    assert_eq!(
        db.complete(&prefix("the", "cat")),
        Some(&strings(&["sat", "mat", "sat", "mat"]))
    );
    assert_eq!(db.complete(&prefix("cat", "sat")), Some(&strings(&["on", "on"])));
    assert_eq!(db.complete(&prefix("on", "the")), Some(&strings(&["cat", "cat"])));
}

#[test]
fn training_accumulates_across_sentences() {
    let mut db = Database::new();
    assert!(db.parse(Sentence::from("a b c")).is_ok());
    assert!(db.parse(Sentence::from("a b d e")).is_ok());
    assert_eq!(db.complete(&prefix("a", "b")), Some(&strings(&["c", "d"])));
    assert_eq!(db.complete(&prefix("b", "d")), Some(&strings(&["e"])));
}

#[test]
fn rand_complete_on_absent_prefix_is_none() {
    let mut db = Database::new();
    assert!(db.rand_complete(&prefix("a", "b")).is_none());
    assert!(db.parse(Sentence::from("a b c")).is_ok());
    assert!(db.rand_complete(&prefix("x", "y")).is_none());
}

#[test]
fn rand_complete_returns_a_recorded_word() {
    let mut db = Database::new();
    assert!(db.parse(Sentence::from("a b c")).is_ok());
    assert!(db.parse(Sentence::from("a b d")).is_ok());
    assert!(db.parse(Sentence::from("a b d")).is_ok());
    for _ in 0..50 {
        let w = db.rand_complete(&prefix("a", "b")).unwrap();
        assert!(w == "c" || w == "d");
    }
    assert_eq!(db.rand_complete(&prefix("b", "c")), None);
}

#[test]
fn rand_complete_with_one_word_returns_it() {
    let mut db = Database::new();
    assert!(db.parse(Sentence::from("x y z")).is_ok());
    assert_eq!(db.rand_complete(&prefix("x", "y")).map(|w| w.as_str()), Some("z"));
}

#[test]
fn generate_zero_words_gives_the_prefix() {
    let mut db = Database::new();
    assert!(db.parse(Sentence::from("a b c d")).is_ok());
    assert_eq!(db.generate(&prefix("a", "b"), 0).unwrap(), "a b");
    assert_eq!(db.generate(&prefix("q", "r"), 0).unwrap(), "q r");
}

#[test]
fn generate_follows_the_chain() {
    let mut db = Database::new();
    assert!(db.parse(Sentence::from("x y x y")).is_ok());
    assert_eq!(db.generate(&prefix("x", "y"), 3).unwrap(), "x y x y x");
    let out = db.generate(&prefix("x", "y"), 10).unwrap();
    assert_eq!(out.split(' ').count(), 12);
}

#[test]
fn generate_stops_where_the_chain_ends() {
    let mut db = Database::new();
    assert!(db.parse(Sentence::from("a b c d")).is_ok());
    assert_eq!(db.generate(&prefix("a", "b"), 5).unwrap(), "a b c d");
}

#[test]
fn generate_from_absent_prefix_gives_the_prefix() {
    let db = Database::new();
    assert_eq!(db.generate(&prefix("p", "q"), 4).unwrap(), "p q");
}

#[test]
fn generate_words_are_recorded_continuations() {
    let mut db = Database::new();
    assert!(db.parse(Sentence::from("a b c a b d a b")).is_ok());
    for _ in 0..20 {
        let out = db.generate(&prefix("a", "b"), 6).unwrap();
        let words: Vec<&str> = out.split(' ').collect();
        assert_eq!(&words[..2], &["a", "b"]);
        for i in 2..words.len() {
            let window = prefix(words[i - 2], words[i - 1]);
            let list = db.complete(&window).unwrap();
            assert!(list.iter().any(|w| w == words[i]));
        }
    }
}

#[test]
fn complete_does_not_change_the_table() {
    let mut db = Database::new();
    assert!(db.parse(Sentence::from("x y x y")).is_ok());
    let first = db.complete(&prefix("x", "y")).cloned();
    for _ in 0..5 {
        assert_eq!(db.complete(&prefix("x", "y")).cloned(), first);
    }
    assert_eq!(db.generate(&prefix("x", "y"), 2).unwrap(), "x y x y");
}

#[test]
fn training_recovers_each_adjacency() {
    let text = "one two three two three four one two";
    let words: Vec<&str> = text.split_whitespace().collect();
    let mut db = Database::new();
    assert!(db.parse(Sentence::from(text)).is_ok());
    for i in 1..words.len() - 1 {
        let list = db.complete(&prefix(words[i - 1], words[i])).unwrap();
        assert!(list.iter().any(|w| w == words[i + 1]));
    }
}

#[test]
fn error_messages() {
    assert_eq!(
        MarkovError::InsufficientLength.message(),
        "Insufficient sentence length!"
    );
    assert_eq!(
        MarkovError::NoCompletion(prefix("a", "b")).message(),
        "No completion available for (\"a\", \"b\")!"
    );
}

#[test]
fn generate_with_picks_follows_the_choices() {
    let mut db = Database::new();
    assert!(db.parse(Sentence::from("a b c a b d")).is_ok());
    assert_eq!(db.generate_with_picks(&prefix("a", "b"), &vec![0, 0, 0, 0]), "a b c a b c");
    assert_eq!(db.generate_with_picks(&prefix("a", "b"), &vec![1]), "a b d");
    assert_eq!(db.generate_with_picks(&prefix("a", "b"), &vec![3]), "a b d");
}

#[test]
fn generate_with_picks_stops_at_a_window_without_continuations() {
    let mut db = Database::new();
    assert!(db.parse(Sentence::from("a b c a b d")).is_ok());
    assert_eq!(db.generate_with_picks(&prefix("a", "b"), &vec![1, 5, 0]), "a b d");
    assert_eq!(db.generate_with_picks(&prefix("z", "z"), &vec![0, 1]), "z z");
    assert_eq!(db.generate_with_picks(&prefix("a", "b"), &vec![]), "a b");
}

#[test]
fn sentence_keeps_punctuation_and_case() {
    let s = Sentence::from("  The  cat,\tsat\n");
    assert_eq!(s.words(), &strings(&["The", "cat,", "sat"]));
}

#[test]
fn owned_and_borrowed_text_give_the_same_sentence() {
    let t = " a  b\tc\u{2003}d ";
    assert_eq!(Sentence::from(t.to_string()).words(), Sentence::from(t).words());
}

#[test]
fn complete_never_returns_an_empty_list() {
    let mut db = Database::new();
    assert!(db.parse(Sentence::from("a b c d e")).is_ok());
    for (a, b) in [("a", "b"), ("b", "c"), ("c", "d")] {
        assert!(!db.complete(&prefix(a, b)).unwrap().is_empty());
    }
}
