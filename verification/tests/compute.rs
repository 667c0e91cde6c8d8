use roget::Correctness;

#[test]
fn all_green() {
    assert_eq!(
        Correctness::compute("abcde", "abcde"),
        vec![Correctness::Correct; 5]
    );
}

#[test]
fn all_gray() {
    assert_eq!(
        Correctness::compute("abcde", "lmnop"),
        vec![Correctness::Wrong; 5]
    );
}

#[test]
fn all_yellow() {
    assert_eq!(
        Correctness::compute("abcde", "cdbea"),
        vec![Correctness::Misplaced; 5]
    );
}

#[test]
fn repeat_green() {
    assert_eq!(
        Correctness::compute("aabbb", "aaccc"),
        vec![
            Correctness::Correct,
            Correctness::Correct,
            Correctness::Wrong,
            Correctness::Wrong,
            Correctness::Wrong,
        ]
    );
}

#[test]
fn repeat_yellow() {
    assert_eq!(
        Correctness::compute("aabbb", "ccaac"),
        vec![
            Correctness::Wrong,
            Correctness::Wrong,
            Correctness::Misplaced,
            Correctness::Misplaced,
            Correctness::Wrong,
        ]
    );
}

#[test]
fn repeat_some_green() {
    assert_eq!(
        Correctness::compute("aabbb", "caacc"),
        vec![
            Correctness::Wrong,
            Correctness::Correct,
            Correctness::Misplaced,
            Correctness::Wrong,
            Correctness::Wrong,
        ]
    );
}

#[test]
fn random_1() {
    assert_eq!(
        Correctness::compute("azzaz", "aaabb"),
        vec![
            Correctness::Correct,
            Correctness::Misplaced,
            Correctness::Wrong,
            Correctness::Wrong,
            Correctness::Wrong,
        ]
    );
}

#[test]
fn random_2() {
    assert_eq!(
        Correctness::compute("abcde", "aacde"),
        vec![
            Correctness::Correct,
            Correctness::Wrong,
            Correctness::Correct,
            Correctness::Correct,
            Correctness::Correct,
        ]
    );
}

#[test]
fn five_entries_and_green_bound() {
    let m = Correctness::compute("azzaz", "aaabb");
    assert_eq!(m.len(), 5);
    let greens = m.iter().filter(|&&c| c == Correctness::Correct).count();
    let exact = "azzaz"
        .chars()
        .zip("aaabb".chars())
        .filter(|(a, g)| a == g)
        .count();
    assert!(greens <= exact);
}

#[test]
fn repeated_letter_not_overcredited() {
    // the guess holds three a's, the answer only two
    let m = Correctness::compute("azzaz", "aaabb");
    let credited = "aaabb"
        .chars()
        .zip(m.iter())
        .filter(|(g, &c)| *g == 'a' && c != Correctness::Wrong)
        .count();
    assert!(credited <= 2);
}
