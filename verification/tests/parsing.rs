use roget::algorithms::Naive;
use roget::{DictError, Wordle};

#[test]
fn dictionary_loads() {
    let lines = vec!["hello 211".to_string(), "world 93".to_string()];
    let w = Wordle::new(&lines).unwrap();
    assert!(w.has_word("hello"));
    assert!(w.has_word("world"));
    assert!(!w.has_word("wheel"));
}

#[test]
fn missing_separator_is_fatal() {
    let w = Wordle::new(&vec!["hello".to_string()]);
    assert_eq!(w.err(), Some(DictError::MissingSeparator));
}

#[test]
fn bad_frequency_is_fatal() {
    let nondigit = Wordle::new(&vec!["hello x1".to_string()]);
    assert_eq!(nondigit.err(), Some(DictError::BadFrequency));
    let empty = Wordle::new(&vec!["hello ".to_string()]);
    assert_eq!(empty.err(), Some(DictError::BadFrequency));
    let too_big = Wordle::new(&vec!["hello 99999999999999999999999999".to_string()]);
    assert_eq!(too_big.err(), Some(DictError::BadFrequency));
}

#[test]
fn bad_word_length_is_fatal() {
    let w = Wordle::new(&vec!["hi 3".to_string()]);
    assert_eq!(w.err(), Some(DictError::BadWordLength));
}

#[test]
fn first_defect_is_reported() {
    let lines = vec![
        "hello 1".to_string(),
        "oops".to_string(),
        "nope 2".to_string(),
    ];
    assert_eq!(Wordle::new(&lines).err(), Some(DictError::MissingSeparator));
}

#[test]
fn splits_at_first_space() {
    // the second space makes the frequency text malformed
    let w = Wordle::new(&vec!["hello 1 2".to_string()]);
    assert_eq!(w.err(), Some(DictError::BadFrequency));
}

#[test]
fn duplicate_words_kept_once() {
    let lines = vec![
        "hello 1".to_string(),
        "world 2".to_string(),
        "hello 3".to_string(),
    ];
    let w = Wordle::new(&lines).unwrap();
    assert_eq!(w.words.len(), 2);
    assert!(w.has_word("hello"));
    assert!(w.has_word("world"));
}

#[test]
fn naive_table_loads() {
    let lines = vec!["hello 211".to_string(), "world 93".to_string()];
    let n = Naive::new(&lines).unwrap();
    assert_eq!(n.remaining.len(), 2);
    assert_eq!(n.remaining[0].0, "hello");
    assert_eq!(n.remaining[0].1, 211);
    assert_eq!(n.remaining[1].0, "world");
    assert_eq!(n.remaining[1].1, 93);
}

#[test]
fn naive_rejects_bad_count() {
    let n = Naive::new(&vec!["hello one".to_string()]);
    assert_eq!(n.err(), Some(DictError::BadFrequency));
}
