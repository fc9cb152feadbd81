use vstd::prelude::*;

verus! {

/// Which statistics to compute.
#[derive(Clone, Copy, Debug, PartialEq, Eq, Structural)]
pub struct Selection {
    pub bytes: bool,
    pub chars: bool,
    pub words: bool,
    pub lines: bool,
    pub max_line_length: bool,
}

impl Selection {
    pub open spec fn is_empty(self) -> bool {
        !self.bytes && !self.chars && !self.words && !self.lines && !self.max_line_length
    }

    pub open spec fn is_bytes_only(self) -> bool {
        self.bytes && !self.chars && !self.words && !self.lines && !self.max_line_length
    }

    pub fn new(bytes: bool, chars: bool, words: bool, lines: bool, max_line_length: bool) -> (r:
        Selection)
        ensures
            r == (Selection { bytes, chars, words, lines, max_line_length }),
    {
        Selection { bytes, chars, words, lines, max_line_length }
    }

    /// The selection itself, or bytes, words and lines where nothing is selected.
    pub fn or_default(self) -> (r: Selection)
        ensures
            self.is_empty() ==> r == (Selection {
                bytes: true,
                chars: false,
                words: true,
                lines: true,
                max_line_length: false,
            }),
            !self.is_empty() ==> r == self,
    {
        if !self.bytes && !self.chars && !self.words && !self.lines && !self.max_line_length {
            Selection { bytes: true, chars: false, words: true, lines: true, max_line_length: false }
        } else {
            self
        }
    }

    /// Whether the byte count is the only statistic asked for.
    pub fn bytes_only(&self) -> (r: bool)
        ensures
            r == self.is_bytes_only(),
    {
        self.bytes && !self.chars && !self.words && !self.lines && !self.max_line_length
    }
}

} // verus!
