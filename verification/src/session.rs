//! The session orchestrator: one turn at a time, from a guess event to
//! feedback and the next state, and the whole-session turn loop over a
//! recorded stream of guess events.

use vstd::prelude::*;

use crate::scoring::{all_here, feedback_is_win, score, score_spec, LetterScore};
use crate::word::{valid_word, Word};
use crate::wordlist::{list_contains, Wordlist};

verus! {

/// What one turn decided.
pub enum StepResult {
    /// The guess was valid but not the solution: write the feedback,
    /// then play the next turn.
    Playing { feedback: Vec<LetterScore>, next_turn: u32 },
    /// The guess matched the solution everywhere: write the feedback
    /// and report the number of turns taken.
    Won { feedback: Vec<LetterScore>, turns: u32 },
    /// The guess is not in the active wordlist: stop with a failure,
    /// without scoring.
    InvalidGuess,
    /// The guesser's input stream ended: stop quietly.
    StreamEnded,
}

/// How a recorded session ended.
#[derive(Copy, Clone, Debug, PartialEq, Eq, Structural)]
pub enum SessionOutcome {
    /// The guesser won, taking this many turns.
    Won(u32),
    /// A guess was not in the active wordlist.
    InvalidGuess,
    /// The guesser's input stream ended before a win.
    StreamEnded,
    /// The recorded events ran out with the session still going; this
    /// turn would be played next.
    InProgress(u32),
}

/// The step reports a win: the scored feedback is handed out and the
/// reported turn count is exactly the turn the win fell on.
pub open spec fn step_is_won(r: StepResult, fb: Seq<LetterScore>, turn: u32) -> bool {
    r matches StepResult::Won { feedback, turns } && feedback@ == fb && turns == turn
}

/// The step continues the session: the scored feedback is handed out
/// and the turn counter moves up by one.
pub open spec fn step_is_playing(r: StepResult, fb: Seq<LetterScore>, turn: u32) -> bool {
    r matches StepResult::Playing { feedback, next_turn } && feedback@ == fb && next_turn == turn
        + 1
}

/// The event is a guess from the wordlist that does not win.
pub open spec fn losing_valid_guess(wl: Seq<Seq<u8>>, sol: Seq<u8>, e: Option<Seq<u8>>) -> bool {
    e matches Some(g) && list_contains(wl, g) && !all_here(score_spec(sol, g))
}

/// The event is a guess from the wordlist whose feedback is all
/// `Here`.
pub open spec fn winning_guess(wl: Seq<Seq<u8>>, sol: Seq<u8>, e: Option<Seq<u8>>) -> bool {
    e matches Some(g) && list_contains(wl, g) && all_here(score_spec(sol, g))
}

/// Plays one turn: reads the guess event, validates it against the
/// wordlist, scores it, and decides how the session goes on.
///
/// An absent event (end of the input stream) ends the session quietly.
/// A guess outside the wordlist ends it with the invalid-guess
/// failure, and nothing is scored. Otherwise the guess is scored; an
/// all-`Here` feedback wins, reporting the current turn number, and
/// anything else continues with the next turn.
pub fn session_step(wordlist: &Wordlist, solution: &Word, turn: u32, guess: &Option<Vec<u8>>) -> (r:
    StepResult)
    requires
        wordlist.wf(),
        solution.wf(),
        turn < u32::MAX,
    ensures
        guess is None ==> r is StreamEnded,
        guess matches Some(g) ==> (!list_contains(wordlist@, g@) ==> r is InvalidGuess),
        guess matches Some(g) ==> (list_contains(wordlist@, g@) && all_here(
            score_spec(solution@, g@),
        ) ==> step_is_won(r, score_spec(solution@, g@), turn)),
        guess matches Some(g) ==> (list_contains(wordlist@, g@) && !all_here(
            score_spec(solution@, g@),
        ) ==> step_is_playing(r, score_spec(solution@, g@), turn)),
{
    let line = match guess {
        None => {
            return StepResult::StreamEnded;
        },
        Some(line) => line,
    };
    if !wordlist.contains(line) {
        return StepResult::InvalidGuess;
    }
    proof {
        let i = choose|i: int| 0 <= i < wordlist@.len() && wordlist@[i] == line@;
        assert(valid_word(wordlist@[i]));
    }
    let w = match Word::new(line) {
        Some(w) => w,
        None => {
            proof {
                assert(false);
            }
            return StepResult::InvalidGuess;
        },
    };
    let feedback = score(solution, &w);
    if feedback_is_win(&feedback) {
        StepResult::Won { feedback, turns: turn }
    } else {
        StepResult::Playing { feedback, next_turn: turn + 1 }
    }
}

/// The views of a vector of guess events.
pub open spec fn event_views(events: Seq<Option<Vec<u8>>>) -> Seq<Option<Seq<u8>>> {
    events.map_values(
        |e: Option<Vec<u8>>|
            match e {
                Option::None => Option::<Seq<u8>>::None,
                Option::Some(v) => Option::Some(v@),
            },
    )
}

/// The outcome of playing the session over a stream of guess events,
/// starting at the given turn number: the turn loop of the engine,
/// one `session_step` per event.
pub open spec fn run_spec(
    wl: Seq<Seq<u8>>,
    sol: Seq<u8>,
    events: Seq<Option<Seq<u8>>>,
    turn: u32,
) -> SessionOutcome
    decreases events.len(),
{
    if events.len() == 0 {
        SessionOutcome::InProgress(turn)
    } else {
        match events[0] {
            Option::None => SessionOutcome::StreamEnded,
            Option::Some(g) => if !list_contains(wl, g) {
                SessionOutcome::InvalidGuess
            } else if all_here(score_spec(sol, g)) {
                SessionOutcome::Won(turn)
            } else {
                run_spec(wl, sol, events.skip(1), ((turn + 1) as u32))
            },
        }
    }
}

/// Plays a whole session over a recorded stream of guess events,
/// starting at turn 1.
pub fn run_session(wordlist: &Wordlist, solution: &Word, events: &Vec<Option<Vec<u8>>>) -> (r:
    SessionOutcome)
    requires
        wordlist.wf(),
        solution.wf(),
        events@.len() < u32::MAX,
    ensures
        r == run_spec(wordlist@, solution@, event_views(events@), 1),
{
    let mut turn: u32 = 1;
    let mut k: usize = 0;
    proof {
        assert(event_views(events@).skip(0) =~= event_views(events@));
    }
    while k < events.len()
        invariant
            k <= events@.len(),
            events@.len() < u32::MAX,
            wordlist.wf(),
            solution.wf(),
            turn == k + 1,
            run_spec(wordlist@, solution@, event_views(events@), 1) == run_spec(
                wordlist@,
                solution@,
                event_views(events@).skip(k as int),
                turn,
            ),
        decreases events@.len() - k,
    {
        let step = session_step(wordlist, solution, turn, &events[k]);
        proof {
            assert(event_views(events@).skip(k as int)[0] == event_views(events@)[k as int]);
            assert(event_views(events@).skip(k as int).skip(1) =~= event_views(events@).skip(
                k as int + 1,
            ));
        }
        match step {
            StepResult::StreamEnded => {
                return SessionOutcome::StreamEnded;
            },
            StepResult::InvalidGuess => {
                return SessionOutcome::InvalidGuess;
            },
            StepResult::Won { feedback: _, turns } => {
                return SessionOutcome::Won(turns);
            },
            StepResult::Playing { feedback: _, next_turn } => {
                turn = next_turn;
            },
        }
        k = k + 1;
    }
    SessionOutcome::InProgress(turn)
}

/// The law of winning sessions: when the first `k - 1` guesses are
/// valid words that do not win and the `k`-th guess is a valid word
/// whose feedback is all `Here`, the session played from this turn
/// number ends exactly there and reports the turn the win fell on.
proof fn lemma_run_wins_from(
    wl: Seq<Seq<u8>>,
    sol: Seq<u8>,
    events: Seq<Option<Seq<u8>>>,
    turn: u32,
    k: int,
)
    requires
        1 <= k <= events.len(),
        turn + k - 1 <= u32::MAX,
        forall|i: int| 0 <= i < k - 1 ==> losing_valid_guess(wl, sol, #[trigger] events[i]),
        winning_guess(wl, sol, events[k - 1]),
    ensures
        run_spec(wl, sol, events, turn) == SessionOutcome::Won(((turn + k - 1) as u32)),
    decreases k,
{
    if k == 1 {
    } else {
        assert(losing_valid_guess(wl, sol, events[0]));
        let rest = events.skip(1);
        assert forall|i: int| 0 <= i < k - 2 implies losing_valid_guess(
            wl,
            sol,
            #[trigger] rest[i],
        ) by {
            assert(rest[i] == events[i + 1]);
        }
        assert(rest[k - 2] == events[k - 1]);
        lemma_run_wins_from(wl, sol, rest, ((turn + 1) as u32), k - 1);
    }
}

/// A session over events whose first `k - 1` guesses are valid words
/// that do not win and whose `k`-th guess is a valid word scoring all
/// `Here` terminates after exactly `k` turns and reports `k`.
pub proof fn lemma_session_win_turn_count(
    wl: Seq<Seq<u8>>,
    sol: Seq<u8>,
    events: Seq<Option<Seq<u8>>>,
    k: int,
)
    requires
        1 <= k <= events.len(),
        k <= u32::MAX - 1,
        forall|i: int| 0 <= i < k - 1 ==> losing_valid_guess(wl, sol, #[trigger] events[i]),
        winning_guess(wl, sol, events[k - 1]),
    ensures
        run_spec(wl, sol, events, 1) == SessionOutcome::Won((k as u32)),
{
    lemma_run_wins_from(wl, sol, events, 1, k);
}

/// The glyph for an exact match: ASCII `'O'`.
pub const GLYPH_HERE: u8 = 79;

/// The glyph for a letter present elsewhere: ASCII `'X'`.
pub const GLYPH_SOMEWHERE: u8 = 88;

/// The glyph for an absent letter: an ASCII blank.
pub const GLYPH_NOWHERE: u8 = 32;

/// The line terminator of the protocol: ASCII newline.
pub const LINE_END: u8 = 10;

/// The glyph a verdict is written as on the wire.
pub open spec fn glyph(sc: LetterScore) -> u8 {
    match sc {
        LetterScore::Here => GLYPH_HERE,
        LetterScore::Somewhere => GLYPH_SOMEWHERE,
        LetterScore::Nowhere => GLYPH_NOWHERE,
    }
}

/// Encodes a feedback vector as one protocol line: one glyph per slot,
/// newline-terminated.
pub fn render_feedback(fb: &Vec<LetterScore>) -> (r: Vec<u8>)
    ensures
        r@.len() == fb@.len() + 1,
        forall|i: int| 0 <= i < fb@.len() ==> r@[i] == glyph(fb@[i]),
        r@[fb@.len() as int] == LINE_END,
{
    let mut out: Vec<u8> = Vec::new();
    let mut i: usize = 0;
    while i < fb.len()
        invariant
            i <= fb@.len(),
            out@.len() == i,
            forall|k: int| 0 <= k < i ==> out@[k] == glyph(fb@[k]),
        decreases fb@.len() - i,
    {
        let b = match fb[i] {
            LetterScore::Here => GLYPH_HERE,
            LetterScore::Somewhere => GLYPH_SOMEWHERE,
            LetterScore::Nowhere => GLYPH_NOWHERE,
        };
        out.push(b);
        i = i + 1;
    }
    out.push(LINE_END);
    out
}

} // verus!
