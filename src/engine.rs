use vstd::prelude::*;

use crate::counts::{Counts, Tally};
use crate::selection::Selection;

verus! {

/// Space, tab, line feed and carriage return separate words.
pub open spec fn is_space(b: u8) -> bool {
    b == 32 || b == 9 || b == 10 || b == 13
}

/// Number of bytes that are not zero.
pub open spec fn nonzero_count(s: Seq<u8>) -> nat
    decreases s.len(),
{
    if s.len() == 0 {
        0
    } else {
        nonzero_count(s.drop_last()) + if s.last() != 0 { 1nat } else { 0nat }
    }
}

/// Number of line feeds.
pub open spec fn newline_count(s: Seq<u8>) -> nat
    decreases s.len(),
{
    if s.len() == 0 {
        0
    } else {
        newline_count(s.drop_last()) + if s.last() == 10 { 1nat } else { 0nat }
    }
}

/// A word starts at `i`: a non-space byte at the start or right after a space.
pub open spec fn starts_word(s: Seq<u8>, i: int) -> bool {
    !is_space(s[i]) && (i == 0 || is_space(s[i - 1]))
}

/// Number of maximal runs of non-space bytes.
pub open spec fn word_count(s: Seq<u8>) -> nat
    decreases s.len(),
{
    if s.len() == 0 {
        0
    } else {
        word_count(s.drop_last()) + if starts_word(s, s.len() - 1) { 1nat } else { 0nat }
    }
}

/// Whether the bytes end inside a word.
pub open spec fn ends_in_word(s: Seq<u8>) -> bool {
    s.len() > 0 && !is_space(s.last())
}

/// Length of the line in progress at the end: the bytes since the last line feed.
pub open spec fn open_line_len(s: Seq<u8>) -> nat
    decreases s.len(),
{
    if s.len() == 0 {
        0
    } else if s.last() == 10 {
        0
    } else {
        open_line_len(s.drop_last()) + 1
    }
}

/// Length of the longest line, terminated or not, without its line feed.
pub open spec fn longest_line(s: Seq<u8>) -> nat
    decreases s.len(),
{
    if s.len() == 0 {
        0
    } else {
        let before = longest_line(s.drop_last());
        let here = open_line_len(s);
        if before >= here {
            before
        } else {
            here
        }
    }
}

/// The selected statistics of `s`; those not selected are zero.
pub open spec fn tally_of(sel: Selection, s: Seq<u8>) -> Tally {
    Tally {
        bytes: if sel.bytes { s.len() } else { 0 },
        chars: if sel.chars { nonzero_count(s) } else { 0 },
        words: if sel.words { word_count(s) } else { 0 },
        lines: if sel.lines { newline_count(s) } else { 0 },
        longest: if sel.max_line_length { longest_line(s) } else { 0 },
    }
}

/// A tally whose only nonzero statistic is a byte count of `n`.
pub open spec fn size_only(n: nat) -> Tally {
    Tally { bytes: n, ..Tally::zero() }
}

/// The byte count reported by the file system stands in for a byte count of
/// zero that a read produced.
pub open spec fn settle(t: Tally, sel: Selection, size: Option<usize>) -> Tally {
    if sel.bytes && t.bytes == 0 && size is Some {
        Tally { bytes: size->0 as nat, ..t }
    } else {
        t
    }
}

/// The state of the scan: what is counted so far, whether the last byte was
/// inside a word, and the length of the line in progress.
pub struct Scan {
    pub sel: Selection,
    pub tally: Tally,
    pub in_word: bool,
    pub line_len: nat,
}

impl Scan {
    pub open spec fn start(sel: Selection) -> Scan {
        Scan { sel, tally: Tally::zero(), in_word: false, line_len: 0 }
    }

    /// The scan after one more byte. A word is counted where it ends; a line's
    /// length is compared with the longest where its line feed comes.
    pub open spec fn step(self, b: u8) -> Scan {
        let sel = self.sel;
        let t = self.tally;
        let word_ends = sel.words && self.in_word && is_space(b);
        let line_ends = sel.max_line_length && b == 10;
        Scan {
            sel,
            tally: Tally {
                bytes: t.bytes + if sel.bytes { 1nat } else { 0nat },
                chars: t.chars + if sel.chars && b != 0 { 1nat } else { 0nat },
                words: t.words + if word_ends { 1nat } else { 0nat },
                lines: t.lines + if sel.lines && b == 10 { 1nat } else { 0nat },
                longest: if line_ends && self.line_len > t.longest {
                    self.line_len
                } else {
                    t.longest
                },
            },
            in_word: if sel.words { !is_space(b) } else { self.in_word },
            line_len: if !sel.max_line_length {
                self.line_len
            } else if b == 10 {
                0
            } else {
                self.line_len + 1
            },
        }
    }

    /// The scan after all of `s`, byte by byte.
    pub open spec fn run(self, s: Seq<u8>) -> Scan
        decreases s.len(),
    {
        if s.len() == 0 {
            self
        } else {
            self.run(s.drop_last()).step(s.last())
        }
    }

    /// What the scan reports at the end of the stream: a word still open and a
    /// line without a line feed count too.
    pub open spec fn flush(self) -> Tally {
        let t = self.tally;
        Tally {
            words: t.words + if self.in_word { 1nat } else { 0nat },
            longest: if self.line_len > t.longest { self.line_len } else { t.longest },
            ..t
        }
    }
}

/// Scanning `a` and then `b` is scanning `a + b`.
pub proof fn lemma_run_concat(st: Scan, a: Seq<u8>, b: Seq<u8>)
    ensures
        st.run(a).run(b) == st.run(a + b),
    decreases b.len(),
{
    if b.len() == 0 {
        assert(a + b =~= a);
    } else {
        lemma_run_concat(st, a, b.drop_last());
        assert((a + b).drop_last() =~= a + b.drop_last());
        assert((a + b).last() == b.last());
    }
}

/// The scan from the start state tracks the direct definitions, and none of
/// its counters exceeds the number of bytes.
pub proof fn lemma_scan_tracks(sel: Selection, s: Seq<u8>)
    ensures
        ({
            let st = Scan::start(sel).run(s);
            &&& st.sel == sel
            &&& st.tally.bytes == if sel.bytes { s.len() } else { 0 }
            &&& st.tally.chars == if sel.chars { nonzero_count(s) } else { 0 }
            &&& st.tally.lines == if sel.lines { newline_count(s) } else { 0 }
            &&& sel.words ==> st.in_word == ends_in_word(s) && st.tally.words + (if st.in_word {
                1nat
            } else {
                0nat
            }) == word_count(s)
            &&& !sel.words ==> !st.in_word && st.tally.words == 0
            &&& sel.max_line_length ==> st.line_len == open_line_len(s) && (if st.line_len
                > st.tally.longest {
                st.line_len
            } else {
                st.tally.longest
            }) == longest_line(s)
            &&& !sel.max_line_length ==> st.line_len == 0 && st.tally.longest == 0
            &&& nonzero_count(s) <= s.len()
            &&& newline_count(s) <= s.len()
            &&& word_count(s) <= s.len()
            &&& open_line_len(s) <= s.len()
            &&& longest_line(s) <= s.len()
        }),
    decreases s.len(),
{
    if s.len() > 0 {
        let p = s.drop_last();
        lemma_scan_tracks(sel, p);
        if p.len() > 0 {
            assert(p.last() == s[s.len() - 2]);
        }
    }
}

/// The scan reports exactly the selected statistics of what it has read.
pub proof fn lemma_scan_correct(sel: Selection, s: Seq<u8>)
    ensures
        Scan::start(sel).run(s).flush() == tally_of(sel, s),
{
    lemma_scan_tracks(sel, s);
}

/// Counts one stream of bytes, delivered in chunks of any size.
pub struct Counter {
    sel: Selection,
    counts: Counts,
    in_word: bool,
    line_len: usize,
    fed: usize,
    seen: Ghost<Seq<u8>>,
}

impl View for Counter {
    type V = Scan;

    closed spec fn view(&self) -> Scan {
        Scan {
            sel: self.sel,
            tally: self.counts@,
            in_word: self.in_word,
            line_len: self.line_len as nat,
        }
    }
}

impl Counter {
    /// The bytes fed so far, in order.
    pub closed spec fn seen(&self) -> Seq<u8> {
        self.seen@
    }

    pub closed spec fn wf(&self) -> bool {
        &&& self@ == Scan::start(self.sel).run(self.seen@)
        &&& self.fed == self.seen@.len()
    }

    /// A counter that has read nothing.
    pub fn new(sel: Selection) -> (r: Counter)
        ensures
            r.wf(),
            r@ == Scan::start(sel),
            r.seen() == Seq::<u8>::empty(),
    {
        Counter {
            sel,
            counts: Counts::new(),
            in_word: false,
            line_len: 0,
            fed: 0,
            seen: Ghost(Seq::empty()),
        }
    }

    /// How many bytes have been fed.
    pub fn fed(&self) -> (r: usize)
        requires
            self.wf(),
        ensures
            r == self.seen().len(),
    {
        self.fed
    }

    /// Reads one byte.
    fn step_byte(&mut self, b: u8)
        requires
            old(self).wf(),
            old(self).seen().len() < usize::MAX,
        ensures
            final(self).wf(),
            final(self).seen() == old(self).seen().push(b),
            final(self)@ == old(self)@.step(b),
            final(self).sel == old(self).sel,
    {
        proof {
            lemma_scan_tracks(self.sel, self.seen@);
        }
        if self.sel.bytes {
            self.counts.bytes = self.counts.bytes + 1;
        }
        if self.sel.chars && b != 0 {
            self.counts.chars = self.counts.chars + 1;
        }
        if self.sel.lines && b == 10 {
            self.counts.lines = self.counts.lines + 1;
        }
        if self.sel.max_line_length {
            if b == 10 {
                if self.line_len > self.counts.max_line_length {
                    self.counts.max_line_length = self.line_len;
                }
                self.line_len = 0;
            } else {
                self.line_len = self.line_len + 1;
            }
        }
        if self.sel.words {
            let space = b == 32 || b == 9 || b == 10 || b == 13;
            if !self.in_word && !space {
                self.in_word = true;
            } else if self.in_word && space {
                self.in_word = false;
                self.counts.words = self.counts.words + 1;
            }
        }
        self.fed = self.fed + 1;
        let ghost before = self.seen@;
        self.seen = Ghost(before.push(b));
        proof {
            assert(self.seen@.drop_last() =~= before);
        }
    }

    /// Reads one more chunk: the state carries over from the previous one, so a
    /// word or a line split between chunks is seen whole.
    pub fn feed(&mut self, chunk: &[u8])
        requires
            old(self).wf(),
            old(self).seen().len() + chunk@.len() <= usize::MAX,
        ensures
            final(self).wf(),
            final(self).seen() == old(self).seen() + chunk@,
            final(self)@ == old(self)@.run(chunk@),
            final(self)@.sel == old(self)@.sel,
    {
        let ghost start = self.seen@;
        let n = chunk.len();
        let mut i: usize = 0;
        while i < n
            invariant
                self.wf(),
                i <= n,
                n == chunk@.len(),
                start.len() + n <= usize::MAX,
                self.seen@ == start + chunk@.take(i as int),
                self.sel == old(self).sel,
            decreases n - i,
        {
            let b = chunk[i];
            self.step_byte(b);
            proof {
                assert(chunk@.take(i + 1) =~= chunk@.take(i as int).push(b));
            }
            i = i + 1;
        }
        proof {
            assert(chunk@.take(n as int) =~= chunk@);
            lemma_run_concat(Scan::start(self.sel), start, chunk@);
        }
    }

    /// The counts at the end of the stream. Where bytes are selected and none
    /// were read, a known size of the source stands in for the byte count.
    pub fn finish(self, size: Option<usize>) -> (r: Counts)
        requires
            self.wf(),
        ensures
            r@ == settle(self@.flush(), self@.sel, size),
            r@ == settle(tally_of(self@.sel, self.seen()), self@.sel, size),
    {
        proof {
            lemma_scan_tracks(self.sel, self.seen@);
            lemma_scan_correct(self.sel, self.seen@);
        }
        let mut counts = self.counts;
        if self.in_word {
            counts.words = counts.words + 1;
        }
        if self.line_len > counts.max_line_length {
            counts.max_line_length = self.line_len;
        }
        if self.sel.bytes && counts.bytes == 0 {
            if let Some(n) = size {
                counts.bytes = n;
            }
        }
        counts
    }
}

/// The counts of a whole buffer read in one piece.
pub fn count_slice(sel: Selection, data: &[u8]) -> (r: Counts)
    ensures
        r@ == tally_of(sel, data@),
{
    proof {
        assert(data@.len() == data.len());
    }
    let mut counter = Counter::new(sel);
    counter.feed(data);
    proof {
        assert(Seq::<u8>::empty() + data@ =~= data@);
    }
    counter.finish(None)
}

/// The counts taken from a known size alone, without reading. There are such
/// counts only where bytes are the one statistic selected and the size is known.
pub fn fast_path(sel: Selection, size: Option<usize>) -> (r: Option<Counts>)
    ensures
        r is Some <==> sel.is_bytes_only() && size is Some,
        r is Some ==> r->0@ == size_only(size->0 as nat),
{
    if sel.bytes_only() {
        match size {
            Some(n) => {
                let mut counts = Counts::new();
                counts.bytes = n;
                Some(counts)
            },
            None => None,
        }
    } else {
        None
    }
}

/// The scan after each chunk in turn.
pub open spec fn run_chunks(st: Scan, chunks: Seq<Seq<u8>>) -> Scan
    decreases chunks.len(),
{
    if chunks.len() == 0 {
        st
    } else {
        run_chunks(st.run(chunks[0]), chunks.drop_first())
    }
}

/// However a stream is cut into chunks, scanning them in turn gives the state
/// and the counts of scanning the whole stream at once.
pub proof fn lemma_chunking_invariant(sel: Selection, chunks: Seq<Seq<u8>>)
    ensures
        run_chunks(Scan::start(sel), chunks) == Scan::start(sel).run(chunks.flatten()),
        run_chunks(Scan::start(sel), chunks).flush() == tally_of(sel, chunks.flatten()),
{
    lemma_run_chunks_flatten(Scan::start(sel), chunks);
    lemma_scan_correct(sel, chunks.flatten());
}

proof fn lemma_run_chunks_flatten(st: Scan, chunks: Seq<Seq<u8>>)
    ensures
        run_chunks(st, chunks) == st.run(chunks.flatten()),
    decreases chunks.len(),
{
    if chunks.len() > 0 {
        lemma_run_chunks_flatten(st.run(chunks[0]), chunks.drop_first());
        lemma_run_concat(st, chunks[0], chunks.drop_first().flatten());
    }
}

/// A nonempty run of non-space bytes is one word.
proof fn lemma_solid_word(w: Seq<u8>)
    requires
        w.len() > 0,
        forall|i: int| 0 <= i < w.len() ==> !is_space(#[trigger] w[i]),
    ensures
        word_count(w) == 1,
    decreases w.len(),
{
    if w.len() > 1 {
        let p = w.drop_last();
        assert forall|i: int| 0 <= i < p.len() implies !is_space(#[trigger] p[i]) by {
            assert(p[i] == w[i]);
        }
        lemma_solid_word(p);
        assert(!is_space(w[w.len() - 2]));
        assert(!starts_word(w, w.len() - 1));
    } else {
        assert(word_count(w.drop_last()) == 0);
        assert(!is_space(w[0]));
        assert(starts_word(w, 0));
    }
}

/// A word cut anywhere between two chunks is counted once.
pub proof fn lemma_split_word(sel: Selection, w: Seq<u8>, k: int)
    requires
        sel.words,
        w.len() > 0,
        forall|i: int| 0 <= i < w.len() ==> !is_space(#[trigger] w[i]),
        0 <= k <= w.len(),
    ensures
        Scan::start(sel).run(w.take(k)).run(w.skip(k)).flush().words == 1,
{
    lemma_run_concat(Scan::start(sel), w.take(k), w.skip(k));
    assert(w.take(k) + w.skip(k) =~= w);
    lemma_scan_correct(sel, w);
    lemma_solid_word(w);
}

/// The last line and the last word count whether or not a line feed ends the
/// stream: adding one changes neither the word count nor the longest line, and
/// the longest line is at least as long as the unterminated last one.
pub proof fn lemma_unterminated_tail(sel: Selection, s: Seq<u8>)
    ensures
        tally_of(sel, s).words == tally_of(sel, s.push(10)).words,
        tally_of(sel, s).longest == tally_of(sel, s.push(10)).longest,
        longest_line(s) >= open_line_len(s),
        ends_in_word(s) ==> word_count(s) >= 1,
{
    let t = s.push(10);
    assert(t.drop_last() =~= s);
    lemma_scan_tracks(sel, s);
    let all = Selection { bytes: true, chars: true, words: true, lines: true, max_line_length: true };
    lemma_scan_tracks(all, s);
}

/// With only bytes selected, the size of the source gives the counts that
/// reading all of it would give.
pub proof fn lemma_fast_path_agrees(sel: Selection, s: Seq<u8>)
    requires
        sel.is_bytes_only(),
        s.len() <= usize::MAX,
    ensures
        size_only(s.len()) == tally_of(sel, s),
        settle(tally_of(sel, s), sel, Some(s.len() as usize)) == tally_of(sel, s),
{
}

/// An empty stream has every statistic at zero, whatever is selected.
pub proof fn lemma_empty_stream(sel: Selection)
    ensures
        tally_of(sel, Seq::<u8>::empty()) == Tally::zero(),
        settle(Tally::zero(), sel, Some(0usize)) == Tally::zero(),
{
}

} // verus!
