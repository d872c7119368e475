//! The active wordlist: the set of valid words, validated once at the
//! boundary, then read-only for the whole session.

use vstd::prelude::*;

use rand::seq::IndexedRandom;

use crate::word::{valid_word, Word, WORD_LEN};

verus! {

/// Why a list of lines was rejected as a wordlist. Each variant names
/// the first offending line.
#[derive(Copy, Clone, Debug, PartialEq, Eq, Structural)]
pub enum WordlistError {
    /// The line at this index is not exactly five bytes long.
    BadLength(usize),
    /// The line at this index holds a byte that is not an ASCII
    /// lowercase letter.
    BadLetter(usize),
}

/// A validated list of words: every entry is five ASCII lowercase
/// letters.
pub struct Wordlist {
    words: Vec<Word>,
}

impl View for Wordlist {
    type V = Seq<Seq<u8>>;

    closed spec fn view(&self) -> Seq<Seq<u8>> {
        self.words@.map_values(|w: Word| w@)
    }
}

/// A sequence of byte strings holds `g` somewhere.
pub open spec fn list_contains(wl: Seq<Seq<u8>>, g: Seq<u8>) -> bool {
    exists|i: int| 0 <= i < wl.len() && wl[i] == g
}

impl Wordlist {
    /// The invariant of the type: every entry is a valid word.
    pub open spec fn wf(&self) -> bool {
        forall|i: int| 0 <= i < self@.len() ==> valid_word(#[trigger] self@[i])
    }

    /// Validates raw lines into a wordlist. Accepts exactly when every
    /// line is a valid word; otherwise reports the first offending
    /// line, distinguishing a wrong length from a wrong letter.
    pub fn from_lines(lines: &Vec<Vec<u8>>) -> (r: Result<Wordlist, WordlistError>)
        ensures
            r is Ok <==> (forall|i: int|
                0 <= i < lines@.len() ==> valid_word(#[trigger] lines@[i]@)),
            r matches Ok(wl) ==> {
                &&& wl.wf()
                &&& wl@.len() == lines@.len()
                &&& forall|i: int| 0 <= i < lines@.len() ==> wl@[i] == #[trigger] lines@[i]@
            },
            r matches Err(e) ==> match e {
                WordlistError::BadLength(i) => {
                    &&& i < lines@.len()
                    &&& lines@[i as int]@.len() != WORD_LEN
                    &&& forall|k: int| 0 <= k < i ==> valid_word(#[trigger] lines@[k]@)
                },
                WordlistError::BadLetter(i) => {
                    &&& i < lines@.len()
                    &&& lines@[i as int]@.len() == WORD_LEN
                    &&& !valid_word(lines@[i as int]@)
                    &&& forall|k: int| 0 <= k < i ==> valid_word(#[trigger] lines@[k]@)
                },
            },
    {
        let mut words: Vec<Word> = Vec::new();
        let mut i: usize = 0;
        while i < lines.len()
            invariant
                i <= lines@.len(),
                words@.len() == i,
                forall|k: int| 0 <= k < i ==> valid_word(#[trigger] lines@[k]@),
                forall|k: int| 0 <= k < i ==> (#[trigger] words@[k])@ == lines@[k]@,
                forall|k: int| 0 <= k < i ==> (#[trigger] words@[k]).wf(),
            decreases lines@.len() - i,
        {
            let line = &lines[i];
            if line.len() != WORD_LEN {
                return Err(WordlistError::BadLength(i));
            }
            match Word::new(line) {
                Some(w) => {
                    words.push(w);
                },
                None => {
                    return Err(WordlistError::BadLetter(i));
                },
            }
            i = i + 1;
        }
        let wl = Wordlist { words };
        proof {
            assert forall|k: int| 0 <= k < lines@.len() implies wl@[k] == #[trigger] lines@[k]@ by {
                assert(wl@[k] == wl.words@[k]@);
            }
        }
        Ok(wl)
    }

    /// The number of words in the list.
    pub fn len(&self) -> (r: usize)
        ensures
            r == self@.len(),
    {
        self.words.len()
    }

    /// True when the raw bytes spell a word of the list.
    pub fn contains(&self, g: &Vec<u8>) -> (r: bool)
        requires
            self.wf(),
        ensures
            r == list_contains(self@, g@),
    {
        let mut i: usize = 0;
        while i < self.words.len()
            invariant
                i <= self@.len(),
                self.wf(),
                self@.len() == self.words@.len(),
                forall|k: int| 0 <= k < i ==> #[trigger] self@[k] != g@,
            decreases self@.len() - i,
        {
            proof {
                assert(valid_word(self@[i as int]));
                assert(self@[i as int] == self.words@[i as int]@);
            }
            if word_matches_bytes(&self.words[i], g) {
                proof {
                    assert(self@[i as int] == g@);
                }
                return true;
            }
            i = i + 1;
        }
        false
    }

    /// Picks a solution word at random from the list.
    ///
    /// Relies on rand's `IndexedRandom::choose`: it returns `None`
    /// exactly when the slice is empty, and otherwise a
    /// uniformly-sampled element of the slice.
    #[verifier::external_body]
    pub fn choose_solution(&self) -> (r: Option<Word>)
        ensures
            r is Some <==> self@.len() > 0,
            r matches Some(w) ==> exists|i: int| 0 <= i < self@.len() && w@ == #[trigger] self@[i],
    {
        self.words.choose(&mut rand::rng()).cloned()
    }
}

/// True when the word spells exactly the given raw bytes.
pub fn word_matches_bytes(w: &Word, bytes: &Vec<u8>) -> (r: bool)
    requires
        w.wf(),
    ensures
        r == (w@ == bytes@),
{
    if bytes.len() != WORD_LEN {
        return false;
    }
    let mut i: usize = 0;
    while i < WORD_LEN
        invariant
            i <= WORD_LEN,
            w.wf(),
            bytes@.len() == WORD_LEN,
            forall|k: int| 0 <= k < i ==> w@[k] == bytes@[k],
        decreases WORD_LEN - i,
    {
        if w.letter(i) != bytes[i] {
            return false;
        }
        i = i + 1;
    }
    proof {
        assert(w@ =~= bytes@);
    }
    true
}

} // verus!
