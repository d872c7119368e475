//! The `Word` type: exactly five ASCII lowercase letters.

use vstd::prelude::*;

verus! {

/// The byte value of ASCII `'a'`.
pub const ASCII_A: u8 = 97;

/// The byte value of ASCII `'z'`.
pub const ASCII_Z: u8 = 122;

/// True when `b` is an ASCII lowercase letter.
pub open spec fn is_lower_byte(b: u8) -> bool {
    ASCII_A <= b && b <= ASCII_Z
}

/// The number of letters every word has.
pub const WORD_LEN: usize = 5;

/// A word of exactly five ASCII lowercase letters.
///
/// The invariant is established by [`Word::new`], the only way to
/// build one, and preserved by every method.
#[derive(Clone, Debug)]
pub struct Word {
    letters: Vec<u8>,
}

impl View for Word {
    type V = Seq<u8>;

    closed spec fn view(&self) -> Seq<u8> {
        self.letters@
    }
}

/// A sequence of bytes that forms a valid word: exactly five ASCII
/// lowercase letters.
pub open spec fn valid_word(s: Seq<u8>) -> bool {
    &&& s.len() == WORD_LEN
    &&& forall|i: int| 0 <= i < s.len() ==> is_lower_byte(#[trigger] s[i])
}

impl Word {
    /// The invariant of the type, stated over its view.
    pub open spec fn wf(&self) -> bool {
        valid_word(self@)
    }

    /// Builds a word from raw bytes, accepting exactly the valid ones.
    pub fn new(bytes: &Vec<u8>) -> (r: Option<Word>)
        ensures
            r is Some <==> valid_word(bytes@),
            r matches Some(w) ==> w.wf() && w@ == bytes@,
    {
        if bytes.len() != WORD_LEN {
            return None;
        }
        let mut letters: Vec<u8> = Vec::new();
        let mut i: usize = 0;
        while i < bytes.len()
            invariant
                i <= bytes.len(),
                bytes@.len() == WORD_LEN,
                letters@.len() == i,
                forall|k: int| 0 <= k < i ==> letters@[k] == bytes@[k],
                forall|k: int| 0 <= k < i ==> is_lower_byte(#[trigger] bytes@[k]),
            decreases bytes.len() - i,
        {
            let b = bytes[i];
            if b < ASCII_A || b > ASCII_Z {
                return None;
            }
            letters.push(b);
            i = i + 1;
        }
        proof {
            assert(letters@ =~= bytes@);
        }
        Some(Word { letters })
    }

    /// The letter at position `i`.
    pub fn letter(&self, i: usize) -> (r: u8)
        requires
            self.wf(),
            i < WORD_LEN,
        ensures
            r == self@[i as int],
    {
        self.letters[i]
    }

    /// The word's letters as raw bytes.
    pub fn bytes(&self) -> (r: &Vec<u8>)
        ensures
            r@ == self@,
    {
        &self.letters
    }

    /// True when both words spell the same letters.
    pub fn same_as(&self, other: &Word) -> (r: bool)
        requires
            self.wf(),
            other.wf(),
        ensures
            r <==> self@ == other@,
    {
        let mut i: usize = 0;
        while i < WORD_LEN
            invariant
                i <= WORD_LEN,
                self.wf(),
                other.wf(),
                forall|k: int| 0 <= k < i ==> self@[k] == other@[k],
            decreases WORD_LEN - i,
        {
            if self.letter(i) != other.letter(i) {
                return false;
            }
            i = i + 1;
        }
        proof {
            assert(self@ =~= other@);
        }
        true
    }
}

} // verus!
