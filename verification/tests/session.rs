use wordle::scoring::LetterScore::{Here, Nowhere, Somewhere};
use wordle::session::{render_feedback, run_session, session_step, SessionOutcome, StepResult};
use wordle::word::Word;
use wordle::wordlist::{Wordlist, WordlistError};

fn word(s: &str) -> Word {
    Word::new(&s.as_bytes().to_vec()).unwrap()
}

fn lines(words: &[&str]) -> Vec<Vec<u8>> {
    words.iter().map(|w| w.as_bytes().to_vec()).collect()
}

fn wordlist(words: &[&str]) -> Wordlist {
    Wordlist::from_lines(&lines(words)).unwrap()
}

#[test]
fn from_lines_accepts_valid_words() {
    let wl = wordlist(&["moroc", "mormo", "quata", "quass"]);
    assert_eq!(wl.len(), 4);
    assert!(wl.contains(&b"quata".to_vec()));
    assert!(wl.contains(&b"moroc".to_vec()));
    assert!(!wl.contains(&b"zzzzz".to_vec()));
    assert!(!wl.contains(&b"quat".to_vec()));
}

#[test]
fn from_lines_rejects_wrong_length() {
    let r = Wordlist::from_lines(&lines(&["moroc", "mormoo", "quata"]));
    assert_eq!(r.err().unwrap(), WordlistError::BadLength(1));
}

#[test]
fn from_lines_rejects_wrong_letter() {
    let r = Wordlist::from_lines(&lines(&["moroc", "mormo", "quatA"]));
    assert_eq!(r.err().unwrap(), WordlistError::BadLetter(2));
}

#[test]
fn choose_solution_returns_a_member() {
    let wl = wordlist(&["moroc"]);
    let sol = wl.choose_solution().unwrap();
    assert!(sol.same_as(&word("moroc")));
    let several = wordlist(&["moroc", "mormo", "quata"]);
    let sol = several.choose_solution().unwrap();
    assert!(several.contains(sol.bytes()));
}

#[test]
fn choose_solution_of_empty_list_is_none() {
    let wl = wordlist(&[]);
    assert!(wl.choose_solution().is_none());
}

#[test]
fn step_scores_and_continues() {
    let wl = wordlist(&["moroc", "mormo"]);
    let step = session_step(&wl, &word("moroc"), 1, &Some(b"mormo".to_vec()));
    match step {
        StepResult::Playing { feedback, next_turn } => {
            assert_eq!(feedback, vec![Here, Here, Here, Nowhere, Somewhere]);
            assert_eq!(next_turn, 2);
        },
        _ => panic!("expected the session to continue"),
    }
}

#[test]
fn step_reports_win_with_turn_number() {
    let wl = wordlist(&["moroc", "mormo"]);
    let step = session_step(&wl, &word("moroc"), 4, &Some(b"moroc".to_vec()));
    match step {
        StepResult::Won { feedback, turns } => {
            assert_eq!(feedback, vec![Here; 5]);
            assert_eq!(turns, 4);
        },
        _ => panic!("expected a win"),
    }
}

#[test]
fn step_rejects_guess_outside_wordlist() {
    let wl = wordlist(&["moroc", "mormo"]);
    let step = session_step(&wl, &word("moroc"), 1, &Some(b"quata".to_vec()));
    assert!(matches!(step, StepResult::InvalidGuess));
    // a malformed line can never be in the wordlist either
    let step = session_step(&wl, &word("moroc"), 1, &Some(b"moro".to_vec()));
    assert!(matches!(step, StepResult::InvalidGuess));
}

#[test]
fn step_ends_quietly_on_end_of_input() {
    let wl = wordlist(&["moroc", "mormo"]);
    let step = session_step(&wl, &word("moroc"), 1, &None);
    assert!(matches!(step, StepResult::StreamEnded));
}

#[test]
fn session_win_on_third_turn_reports_three() {
    let wl = wordlist(&["moroc", "mormo", "quata"]);
    let events = vec![
        Some(b"quata".to_vec()),
        Some(b"mormo".to_vec()),
        Some(b"moroc".to_vec()),
    ];
    assert_eq!(run_session(&wl, &word("moroc"), &events), SessionOutcome::Won(3));
}

#[test]
fn session_invalid_guess_fails_without_scoring() {
    let wl = wordlist(&["moroc", "mormo"]);
    let events = vec![Some(b"mormo".to_vec()), Some(b"later".to_vec())];
    assert_eq!(run_session(&wl, &word("moroc"), &events), SessionOutcome::InvalidGuess);
}

#[test]
fn session_stream_end_terminates_quietly() {
    let wl = wordlist(&["moroc", "mormo"]);
    let events = vec![Some(b"mormo".to_vec()), None];
    assert_eq!(run_session(&wl, &word("moroc"), &events), SessionOutcome::StreamEnded);
}

#[test]
fn session_without_events_is_in_progress() {
    let wl = wordlist(&["moroc", "mormo"]);
    let events = vec![Some(b"mormo".to_vec())];
    assert_eq!(run_session(&wl, &word("moroc"), &events), SessionOutcome::InProgress(2));
    assert_eq!(run_session(&wl, &word("moroc"), &Vec::new()), SessionOutcome::InProgress(1));
}

#[test]
fn render_feedback_encodes_glyph_line() {
    let line = render_feedback(&vec![Here, Somewhere, Nowhere, Here, Here]);
    assert_eq!(line, b"OX OO\n".to_vec());
    let line = render_feedback(&vec![Nowhere; 5]);
    assert_eq!(line, b"     \n".to_vec());
}
