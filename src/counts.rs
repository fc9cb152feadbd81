use vstd::prelude::*;

verus! {

/// The five statistics as mathematical values.
pub struct Tally {
    pub bytes: nat,
    pub chars: nat,
    pub words: nat,
    pub lines: nat,
    pub longest: nat,
}

impl Tally {
    pub open spec fn zero() -> Tally {
        Tally { bytes: 0, chars: 0, words: 0, lines: 0, longest: 0 }
    }

    /// Sums the additive statistics and keeps the larger longest line.
    pub open spec fn combine(self, other: Tally) -> Tally {
        Tally {
            bytes: self.bytes + other.bytes,
            chars: self.chars + other.chars,
            words: self.words + other.words,
            lines: self.lines + other.lines,
            longest: if self.longest >= other.longest { self.longest } else { other.longest },
        }
    }

    /// Every statistic fits in a machine word.
    pub open spec fn fits(self) -> bool {
        &&& self.bytes <= usize::MAX
        &&& self.chars <= usize::MAX
        &&& self.words <= usize::MAX
        &&& self.lines <= usize::MAX
        &&& self.longest <= usize::MAX
    }
}

/// Counters for one file, or for a combined total.
#[derive(Clone, Copy, Debug, PartialEq, Eq, Structural)]
pub struct Counts {
    pub bytes: usize,
    pub chars: usize,
    pub words: usize,
    pub lines: usize,
    pub max_line_length: usize,
}

impl View for Counts {
    type V = Tally;

    open spec fn view(&self) -> Tally {
        Tally {
            bytes: self.bytes as nat,
            chars: self.chars as nat,
            words: self.words as nat,
            lines: self.lines as nat,
            longest: self.max_line_length as nat,
        }
    }
}

impl Counts {
    /// All counters at zero.
    pub fn new() -> (r: Counts)
        ensures
            r@ == Tally::zero(),
    {
        Counts { bytes: 0, chars: 0, words: 0, lines: 0, max_line_length: 0 }
    }

    /// Whether `add(other)` keeps every counter within a machine word.
    pub fn can_add(&self, other: &Counts) -> (r: bool)
        ensures
            r == self@.combine(other@).fits(),
    {
        self.bytes <= usize::MAX - other.bytes
            && self.chars <= usize::MAX - other.chars
            && self.words <= usize::MAX - other.words
            && self.lines <= usize::MAX - other.lines
    }

    /// Folds `other` into `self`: the four additive counters are summed, the
    /// longest line is the larger of the two.
    pub fn add(&mut self, other: &Counts)
        requires
            old(self)@.combine(other@).fits(),
        ensures
            final(self)@ == old(self)@.combine(other@),
    {
        self.bytes = self.bytes + other.bytes;
        self.chars = self.chars + other.chars;
        self.words = self.words + other.words;
        self.lines = self.lines + other.lines;
        if other.max_line_length > self.max_line_length {
            self.max_line_length = other.max_line_length;
        }
    }
}

/// Combining is associative: a total does not depend on how the per-file
/// counts were grouped.
pub proof fn lemma_combine_associative(a: Tally, b: Tally, c: Tally)
    ensures
        a.combine(b).combine(c) == a.combine(b.combine(c)),
{
}

/// Combining is commutative: a total does not depend on the order of the files.
pub proof fn lemma_combine_commutative(a: Tally, b: Tally)
    ensures
        a.combine(b) == b.combine(a),
{
}

/// Zero is the identity of combining.
pub proof fn lemma_combine_zero(a: Tally)
    ensures
        a.combine(Tally::zero()) == a,
        Tally::zero().combine(a) == a,
{
}

} // verus!
