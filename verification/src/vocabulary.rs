//! Closed vocabularies: the names of the languages and of the parts of speech
//! that the parser recognises.

use vstd::hash_set::StringHashSet;
use vstd::prelude::*;

verus! {

/// A set of words. A heading names a member only when its text is the member,
/// character for character.
pub struct Vocabulary {
    words: StringHashSet,
}

impl View for Vocabulary {
    type V = Set<Seq<char>>;

    closed spec fn view(&self) -> Set<Seq<char>> {
        self.words@
    }
}

impl Vocabulary {
    /// The vocabulary without words.
    pub fn new() -> (v: Vocabulary)
        ensures
            v@ == Set::<Seq<char>>::empty(),
    {
        Vocabulary { words: StringHashSet::new() }
    }

    /// Adds `word`.
    pub fn insert(&mut self, word: &str)
        ensures
            final(self)@ == old(self)@.insert(word@),
    {
        let _ = self.words.insert(word.to_owned());
    }

    /// Whether `word` is a member.
    pub fn contains(&self, word: &str) -> (found: bool)
        ensures
            found == self@.contains(word@),
    {
        self.words.contains(word)
    }

    /// The vocabulary that holds exactly `words`.
    pub fn from_words(words: &[&str]) -> (v: Vocabulary)
        ensures
            forall|w: Seq<char>|
                v@.contains(w) <==> exists|i: int|
                    0 <= i < words@.len() && (#[trigger] words@[i])@ == w,
    {
        let mut v = Vocabulary::new();
        let mut i: usize = 0;
        while i < words.len()
            invariant
                i <= words@.len(),
                forall|w: Seq<char>|
                    v@.contains(w) <==> exists|j: int| 0 <= j < i && (#[trigger] words@[j])@ == w,
            decreases words@.len() - i,
        {
            v.insert(words[i]);
            i += 1;
        }
        v
    }
}

} // verus!
