use vstd::prelude::*;

use crate::counts::{Counts, Tally};
use crate::selection::Selection;

verus! {

pub open spec fn digit_char(d: nat) -> char {
    seq!['0', '1', '2', '3', '4', '5', '6', '7', '8', '9'][d as int]
}

/// The decimal digits of `n`, without leading zeros.
pub open spec fn decimal(n: nat) -> Seq<char>
    decreases n,
{
    if n < 10 {
        seq![digit_char(n)]
    } else {
        decimal(n / 10) + seq![digit_char(n % 10)]
    }
}

/// One labelled field, present only where the statistic is selected and not zero.
pub open spec fn field(shown: bool, label: Seq<char>, value: nat) -> Seq<Seq<char>> {
    if shown && value > 0 {
        seq![label + decimal(value)]
    } else {
        seq![]
    }
}

/// The fields shown for a tally, in the order lines, words, chars, bytes,
/// longest line.
pub open spec fn fields(t: Tally, sel: Selection) -> Seq<Seq<char>> {
    field(sel.lines, "lines: "@, t.lines) + field(sel.words, "words: "@, t.words) + field(
        sel.chars,
        "chars: "@,
        t.chars,
    ) + field(sel.bytes, "bytes: "@, t.bytes) + field(
        sel.max_line_length,
        "max line length: "@,
        t.longest,
    )
}

/// The parts separated by single spaces.
pub open spec fn join(parts: Seq<Seq<char>>) -> Seq<char>
    decreases parts.len(),
{
    if parts.len() == 0 {
        seq![]
    } else if parts.len() == 1 {
        parts[0]
    } else {
        join(parts.drop_last()) + seq![' '] + parts.last()
    }
}

pub open spec fn fields_text(t: Tally, sel: Selection) -> Seq<char> {
    join(fields(t, sel))
}

/// The text of the digit `d`.
fn digit_text(d: usize) -> (r: &'static str)
    requires
        d < 10,
    ensures
        r@ == seq![digit_char(d as nat)],
{
    proof {
        reveal_strlit("0");
        reveal_strlit("1");
        reveal_strlit("2");
        reveal_strlit("3");
        reveal_strlit("4");
        reveal_strlit("5");
        reveal_strlit("6");
        reveal_strlit("7");
        reveal_strlit("8");
        reveal_strlit("9");
    }
    let r = if d == 0 {
        "0"
    } else if d == 1 {
        "1"
    } else if d == 2 {
        "2"
    } else if d == 3 {
        "3"
    } else if d == 4 {
        "4"
    } else if d == 5 {
        "5"
    } else if d == 6 {
        "6"
    } else if d == 7 {
        "7"
    } else if d == 8 {
        "8"
    } else {
        "9"
    };
    assert(r@ =~= seq![digit_char(d as nat)]);
    r
}

/// Appends the decimal digits of `n`.
pub fn push_decimal(out: &mut String, n: usize)
    ensures
        final(out)@ == old(out)@ + decimal(n as nat),
    decreases n,
{
    if n >= 10 {
        push_decimal(out, n / 10);
    }
    out.append(digit_text(n % 10));
    proof {
        assert(out@ =~= old(out)@ + decimal(n as nat));
    }
}

/// Appends one field, after a space where fields came before it.
fn push_field(
    out: &mut String,
    any: bool,
    Ghost(parts): Ghost<Seq<Seq<char>>>,
    shown: bool,
    label: &str,
    value: usize,
) -> (r: bool)
    requires
        old(out)@ == join(parts),
        any == (parts.len() > 0),
    ensures
        final(out)@ == join(parts + field(shown, label@, value as nat)),
        r == ((parts + field(shown, label@, value as nat)).len() > 0),
{
    let ghost added = field(shown, label@, value as nat);
    if shown && value > 0 {
        let ghost x = label@ + decimal(value as nat);
        assert((parts + added).drop_last() =~= parts);
        assert((parts + added).last() == x);
        if any {
            proof {
                reveal_strlit(" ");
            }
            out.append(" ");
        }
        out.append(label);
        push_decimal(out, value);
        proof {
            if !any {
                assert(parts + added =~= seq![x]);
            }
            assert(out@ =~= join(parts + added));
        }
        true
    } else {
        assert(parts + added =~= parts);
        any
    }
}

/// The selected nonzero fields of `counts`, separated by spaces.
pub fn render_fields(counts: &Counts, sel: &Selection) -> (r: String)
    ensures
        r@ == fields_text(counts@, *sel),
{
    let ghost t = counts@;
    let ghost p0: Seq<Seq<char>> = seq![];
    let ghost p1 = p0 + field(sel.lines, "lines: "@, t.lines);
    let ghost p2 = p1 + field(sel.words, "words: "@, t.words);
    let ghost p3 = p2 + field(sel.chars, "chars: "@, t.chars);
    let ghost p4 = p3 + field(sel.bytes, "bytes: "@, t.bytes);
    let ghost p5 = p4 + field(sel.max_line_length, "max line length: "@, t.longest);
    let mut out = String::new();
    assert(out@ =~= join(p0));
    let any = push_field(&mut out, false, Ghost(p0), sel.lines, "lines: ", counts.lines);
    let any = push_field(&mut out, any, Ghost(p1), sel.words, "words: ", counts.words);
    let any = push_field(&mut out, any, Ghost(p2), sel.chars, "chars: ", counts.chars);
    let any = push_field(&mut out, any, Ghost(p3), sel.bytes, "bytes: ", counts.bytes);
    let _ = push_field(
        &mut out,
        any,
        Ghost(p4),
        sel.max_line_length,
        "max line length: ",
        counts.max_line_length,
    );
    assert(p5 =~= fields(t, *sel));
    out
}

/// The line shown for one file: its fields, a space, and its path.
pub fn file_line(counts: &Counts, sel: &Selection, path: &str) -> (r: String)
    ensures
        r@ == fields_text(counts@, *sel) + seq![' '] + path@,
{
    let mut out = render_fields(counts, sel);
    proof {
        reveal_strlit(" ");
    }
    out.append(" ");
    out.append(path);
    out
}

/// The line shown for the combined total: its fields, a space, and `total`.
pub fn total_line(counts: &Counts, sel: &Selection) -> (r: String)
    ensures
        r@ == fields_text(counts@, *sel) + seq![' '] + "total"@,
{
    let mut out = render_fields(counts, sel);
    proof {
        reveal_strlit(" ");
    }
    out.append(" ");
    out.append("total");
    out
}

/// A tally with nothing counted shows no field, whatever is selected.
pub proof fn lemma_zero_shows_nothing(sel: Selection)
    ensures
        fields(Tally::zero(), sel) == Seq::<Seq<char>>::empty(),
        fields_text(Tally::zero(), sel) == Seq::<char>::empty(),
{
    assert(fields(Tally::zero(), sel) =~= Seq::<Seq<char>>::empty());
}

/// The combined tally of a sequence of tallies, folded from the left.
pub open spec fn total(ts: Seq<Tally>) -> Tally
    decreases ts.len(),
{
    if ts.len() == 0 {
        Tally::zero()
    } else {
        total(ts.drop_last()).combine(ts.last())
    }
}

/// The total of two runs of files, one after the other, is the combination of
/// their totals: grouping does not change a total.
pub proof fn lemma_total_split(a: Seq<Tally>, b: Seq<Tally>)
    ensures
        total(a + b) == total(a).combine(total(b)),
    decreases b.len(),
{
    if b.len() == 0 {
        assert(a + b =~= a);
    } else {
        lemma_total_split(a, b.drop_last());
        assert((a + b).drop_last() =~= a + b.drop_last());
        assert((a + b).last() == b.last());
    }
}

/// Swapping two neighbouring files does not change the total, so no order of
/// the files does.
pub proof fn lemma_total_swap(p: Seq<Tally>, x: Tally, y: Tally, q: Seq<Tally>)
    ensures
        total(p + seq![x, y] + q) == total(p + seq![y, x] + q),
{
    lemma_total_split(p + seq![x, y], q);
    lemma_total_split(p + seq![y, x], q);
    lemma_total_split(p, seq![x, y]);
    lemma_total_split(p, seq![y, x]);
    assert(seq![x, y].drop_last() =~= seq![x]);
    assert(seq![y, x].drop_last() =~= seq![y]);
    assert(seq![x].drop_last() =~= Seq::<Tally>::empty());
    assert(seq![y].drop_last() =~= Seq::<Tally>::empty());
    assert(total(Seq::<Tally>::empty()) == Tally::zero());
    assert(seq![x].last() == x && seq![y].last() == y);
    assert(total(seq![x]) == Tally::zero().combine(x));
    assert(total(seq![y]) == Tally::zero().combine(y));
    assert(total(seq![x, y]) == total(seq![x]).combine(y));
    assert(total(seq![y, x]) == total(seq![y]).combine(x));
    assert(total(seq![x, y]) == total(seq![y, x]));
}

/// The tallies of per-file results.
pub open spec fn tallies(results: Seq<(Counts, String)>) -> Seq<Tally> {
    results.map_values(|e: (Counts, String)| e.0@)
}

/// A total over a prefix never exceeds the total over the whole.
proof fn lemma_total_grows(ts: Seq<Tally>, k: int)
    requires
        0 <= k <= ts.len(),
    ensures
        ({
            let a = total(ts.take(k));
            let b = total(ts);
            &&& a.bytes <= b.bytes
            &&& a.chars <= b.chars
            &&& a.words <= b.words
            &&& a.lines <= b.lines
            &&& a.longest <= b.longest
        }),
    decreases ts.len(),
{
    if k == ts.len() {
        assert(ts.take(k) =~= ts);
    } else {
        lemma_total_grows(ts.drop_last(), k);
        assert(ts.drop_last().take(k) =~= ts.take(k));
    }
}

/// The output lines for per-file results in input order: each file's line,
/// then, where there is more than one file, a blank line and the total line.
/// None where a combined counter would not fit in a machine word.
pub fn report(results: &Vec<(Counts, String)>, sel: &Selection) -> (r: Option<Vec<String>>)
    ensures
        r is Some <==> total(tallies(results@)).fits(),
        r is Some ==> ({
            let lines = r->0@;
            let n = results@.len() as int;
            &&& lines.len() == if n > 1 { n + 2 } else { n }
            &&& forall|i: int| 0 <= i < n ==> (#[trigger] lines[i])@ == results@[i].1@
            &&& n > 1 ==> lines[n]@ == Seq::<char>::empty()
            &&& n > 1 ==> lines[n + 1int]@ == fields_text(total(tallies(results@)), *sel) + seq![' ']
                + "total"@
        }),
{
    let ghost ts = tallies(results@);
    let n = results.len();
    let mut sum = Counts::new();
    let mut lines: Vec<String> = Vec::new();
    let mut i: usize = 0;
    while i < n
        invariant
            n == results@.len(),
            ts == tallies(results@),
            i <= n,
            sum@ == total(ts.take(i as int)),
            lines@.len() == i,
            forall|j: int| 0 <= j < i ==> (#[trigger] lines@[j])@ == results@[j].1@,
        decreases n - i,
    {
        let entry = &results[i];
        proof {
            assert(ts.take(i + 1).drop_last() =~= ts.take(i as int));
            assert(ts.take(i + 1).last() == entry.0@);
        }
        if !sum.can_add(&entry.0) {
            proof {
                lemma_total_grows(ts, i + 1);
            }
            return None;
        }
        sum.add(&entry.0);
        lines.push(entry.1.clone());
        i = i + 1;
    }
    assert(ts.take(n as int) =~= ts);
    if n > 1 {
        lines.push(String::new());
        lines.push(total_line(&sum, sel));
    }
    Some(lines)
}

} // verus!
