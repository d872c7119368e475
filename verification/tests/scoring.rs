use wordle::scoring::{score, LetterScore};
use wordle::word::Word;

use wordle::scoring::LetterScore::{Here, Nowhere, Somewhere};

fn word(s: &str) -> Word {
    Word::new(&s.as_bytes().to_vec()).unwrap()
}

#[test]
fn test_score() {
    assert_eq!(score(&word("quata"), &word("quass")), vec![Here, Here, Here, Nowhere, Nowhere]);
    assert_eq!(score(&word("moroc"), &word("mormo")), vec![Here, Here, Here, Nowhere, Somewhere]);
}

#[test]
fn score_of_word_against_itself_is_all_here() {
    for w in ["quata", "moroc", "abbey", "zzzzz"] {
        assert_eq!(score(&word(w), &word(w)), vec![Here; 5]);
    }
}

#[test]
fn score_consumes_each_solution_slot_once() {
    // one exact b; the other guess letters claim the remaining
    // occurrences left to right
    assert_eq!(
        score(&word("aabbb"), &word("bbbaa")),
        vec![Somewhere, Somewhere, Here, Somewhere, Somewhere]
    );
}

#[test]
fn score_excess_occurrences_are_nowhere() {
    // the solution holds one a; only the exact match may claim it
    assert_eq!(
        score(&word("abcde"), &word("aaaaa")),
        vec![Here, Nowhere, Nowhere, Nowhere, Nowhere]
    );
    // one a and one b in the solution: the earliest occurrence of each
    // guessed letter claims it, the rest score nowhere
    assert_eq!(
        score(&word("xyzab"), &word("aabba")),
        vec![Somewhere, Nowhere, Somewhere, Nowhere, Nowhere]
    );
}

#[test]
fn score_prefers_earliest_guess_position() {
    // one e in the solution: the earliest guess occurrence claims it,
    // the later one scores nowhere
    assert_eq!(
        score(&word("xyzew"), &word("eeabc")),
        vec![Somewhere, Nowhere, Nowhere, Nowhere, Nowhere]
    );
    // an exact match keeps its slot out of the presence pass: the
    // remaining e is claimed by the first non-exact e
    assert_eq!(
        score(&word("speed"), &word("eejee")),
        vec![Somewhere, Nowhere, Nowhere, Here, Nowhere]
    );
}

#[test]
fn score_exact_pass_runs_first() {
    // the solution's only a is claimed by the exact match at position
    // 1 before the presence pass looks at position 0
    assert_eq!(
        score(&word("xaqqq"), &word("aaxyz")),
        vec![Nowhere, Here, Somewhere, Nowhere, Nowhere]
    );
}

#[test]
fn score_here_slot_never_doubles_as_somewhere() {
    // the solution's single a serves its exact match and no one else
    assert_eq!(
        score(&word("abcde"), &word("aaaaa")),
        vec![Here, Nowhere, Nowhere, Nowhere, Nowhere]
    );
    // ...even when the exact match sits after the presence
    // candidates: of the solution's two a's, the one at the end serves
    // its exact match, so only the other is left to share
    assert_eq!(
        score(&word("aqqqa"), &word("qaaaa")),
        vec![Somewhere, Somewhere, Nowhere, Nowhere, Here]
    );
}

#[test]
fn score_letter_count_never_exceeds_shared_letters() {
    // the guess repeats a letter the solution holds twice: at most two
    // slots may score other than nowhere
    let fb = score(&word("geese"), &word("eeeee"));
    let hits = fb.iter().filter(|s| **s != Nowhere).count();
    assert_eq!(hits, 3);
    assert_eq!(fb, vec![Nowhere, Here, Here, Nowhere, Here]);
}

#[test]
fn word_rejects_wrong_length() {
    assert!(Word::new(&b"abcd".to_vec()).is_none());
    assert!(Word::new(&b"abcdef".to_vec()).is_none());
    assert!(Word::new(&Vec::new()).is_none());
}

#[test]
fn word_rejects_wrong_letters() {
    assert!(Word::new(&b"abcdE".to_vec()).is_none());
    assert!(Word::new(&b"ab de".to_vec()).is_none());
    assert!(Word::new(&b"abc1e".to_vec()).is_none());
}

#[test]
fn word_accepts_five_lowercase_letters() {
    let w = Word::new(&b"abcde".to_vec()).unwrap();
    assert_eq!(w.bytes(), &b"abcde".to_vec());
    assert_eq!(w.letter(0), b'a');
    assert_eq!(w.letter(4), b'e');
    assert!(w.same_as(&word("abcde")));
    assert!(!w.same_as(&word("abcdf")));
}
