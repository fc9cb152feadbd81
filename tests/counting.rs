use wcount::counts::Counts;
use wcount::dispatch::{announces_progress, is_small, SMALL_FILE_LIMIT};
use wcount::engine::{count_slice, fast_path, Counter};
use wcount::report::{file_line, push_decimal, render_fields, report, total_line};
use wcount::selection::Selection;

fn all() -> Selection {
    Selection::new(true, true, true, true, true)
}

fn counts(bytes: usize, chars: usize, words: usize, lines: usize, longest: usize) -> Counts {
    Counts { bytes, chars, words, lines, max_line_length: longest }
}

fn chunked(sel: Selection, data: &[u8], size: usize) -> Counts {
    let mut c = Counter::new(sel);
    for piece in data.chunks(size) {
        c.feed(piece);
    }
    c.finish(None)
}

#[test]
fn hello_world_all_metrics() {
    let c = count_slice(all(), b"hello world\n");
    assert_eq!(c, counts(12, 12, 2, 1, 11));
    assert_eq!(
        file_line(&c, &all(), "f.txt"),
        "lines: 1 words: 2 chars: 12 bytes: 12 max line length: 11 f.txt"
    );
}

#[test]
fn unterminated_abc_words_and_longest() {
    let sel = Selection::new(false, false, true, false, true);
    let c = count_slice(sel, b"abc");
    assert_eq!(c.words, 1);
    assert_eq!(c.max_line_length, 3);
    assert_eq!(c.lines, 0);
    assert_eq!(render_fields(&c, &sel), "words: 1 max line length: 3");
}

#[test]
fn two_small_files_bytes_only() {
    let sel = Selection::new(true, false, false, false, false);
    assert!(is_small(Some(10)) && is_small(Some(20)));
    let a = fast_path(sel, Some(10)).unwrap();
    let b = fast_path(sel, Some(20)).unwrap();
    let results = vec![
        (a, file_line(&a, &sel, "one.txt")),
        (b, file_line(&b, &sel, "two.txt")),
    ];
    let lines = report(&results, &sel).unwrap();
    assert_eq!(lines, vec!["bytes: 10 one.txt", "bytes: 20 two.txt", "", "bytes: 30 total"]);
}

#[test]
fn empty_file_prints_only_path() {
    let mut c = Counter::new(all());
    c.feed(b"");
    let r = c.finish(Some(0));
    assert_eq!(r, Counts::new());
    assert_eq!(file_line(&r, &all(), "empty.txt"), " empty.txt");
    assert_eq!(render_fields(&r, &all()), "");
}

#[test]
fn whitespace_only_has_no_words() {
    let sel = Selection::new(false, false, true, true, false);
    let c = count_slice(sel, b"   \n\t  \n");
    assert_eq!(c.words, 0);
    assert_eq!(c.lines, 2);
    assert_eq!(render_fields(&c, &sel), "lines: 2");
}

#[test]
fn chunking_gives_the_same_counts() {
    let data: &[u8] = b"the quick\tbrown fox\r\njumps  over\n\nthe lazy dog\0end";
    let whole = count_slice(all(), data);
    assert_eq!(whole, counts(50, 49, 9, 3, 20));
    for size in 1..=data.len() {
        assert_eq!(chunked(all(), data, size), whole);
    }
}

#[test]
fn word_split_across_chunks_counts_once() {
    let sel = Selection::new(false, false, true, false, false);
    for k in 0..=5 {
        let mut c = Counter::new(sel);
        c.feed(&b"hello"[..k]);
        c.feed(&b"hello"[k..]);
        assert_eq!(c.finish(None).words, 1);
    }
}

#[test]
fn trailing_line_and_word_without_newline() {
    let sel = Selection::new(false, false, true, true, true);
    let open = count_slice(sel, b"ab\nlongest");
    let closed = count_slice(sel, b"ab\nlongest\n");
    assert_eq!(open.words, 2);
    assert_eq!(open.max_line_length, 7);
    assert_eq!(open.words, closed.words);
    assert_eq!(open.max_line_length, closed.max_line_length);
    assert_eq!(open.lines, 1);
    assert_eq!(closed.lines, 2);
}

#[test]
fn combining_in_any_order_gives_one_total() {
    let a = counts(1, 2, 3, 4, 9);
    let b = counts(10, 20, 30, 40, 5);
    let c = counts(100, 200, 300, 400, 7);
    let mut left = a;
    left.add(&b);
    left.add(&c);
    let mut bc = b;
    bc.add(&c);
    let mut right = a;
    right.add(&bc);
    let mut swapped = c;
    swapped.add(&a);
    swapped.add(&b);
    assert_eq!(left, right);
    assert_eq!(left, swapped);
    assert_eq!(left, counts(111, 222, 333, 444, 9));
}

#[test]
fn fast_path_matches_full_read() {
    let sel = Selection::new(true, false, false, false, false);
    let data = b"some bytes\nmore";
    let read = count_slice(sel, data);
    let quick = fast_path(sel, Some(data.len())).unwrap();
    assert_eq!(read, quick);
    assert_eq!(quick.bytes, 15);
}

#[test]
fn fast_path_needs_bytes_only_and_a_size() {
    let sel = Selection::new(true, false, false, false, false);
    assert!(fast_path(sel, None).is_none());
    assert!(fast_path(all(), Some(5)).is_none());
}

#[test]
fn size_stands_in_for_zero_bytes_read() {
    let sel = Selection::new(true, false, false, true, false);
    let c = Counter::new(sel);
    let r = c.finish(Some(42));
    assert_eq!(r.bytes, 42);
    assert_eq!(r.lines, 0);
    let mut d = Counter::new(sel);
    d.feed(b"x\n");
    assert_eq!(d.finish(Some(42)).bytes, 2);
}

#[test]
fn empty_input_is_all_zero() {
    assert_eq!(count_slice(all(), b""), Counts::new());
    assert_eq!(total_line(&Counts::new(), &all()), " total");
}

#[test]
fn null_bytes_are_not_chars() {
    let sel = Selection::new(true, true, false, false, false);
    let c = count_slice(sel, b"\0a\0\0b");
    assert_eq!(c.chars, 2);
    assert_eq!(c.bytes, 5);
}

#[test]
fn carriage_return_is_space_but_not_a_line_end() {
    let c = count_slice(all(), b"ab\rcd");
    assert_eq!(c.words, 2);
    assert_eq!(c.lines, 0);
    assert_eq!(c.max_line_length, 5);
}

#[test]
fn unselected_metrics_stay_zero() {
    let sel = Selection::new(false, false, false, true, false);
    let c = count_slice(sel, b"one two\nthree\n");
    assert_eq!(c, counts(0, 0, 0, 2, 0));
}

#[test]
fn default_selection_is_bytes_words_lines() {
    let none = Selection::new(false, false, false, false, false);
    assert_eq!(none.or_default(), Selection::new(true, false, true, true, false));
    let some = Selection::new(false, true, false, false, false);
    assert_eq!(some.or_default(), some);
    assert!(Selection::new(true, false, false, false, false).bytes_only());
    assert!(!all().bytes_only());
}

#[test]
fn decimal_digits() {
    let mut s = String::from("n=");
    push_decimal(&mut s, 0);
    push_decimal(&mut s, 7);
    s.push(',');
    push_decimal(&mut s, 1234567890);
    assert_eq!(s, "n=07,1234567890");
}

#[test]
fn report_single_file_has_no_total() {
    let sel = all();
    let c = count_slice(sel, b"x y\n");
    let lines = report(&vec![(c, file_line(&c, &sel, "p"))], &sel).unwrap();
    assert_eq!(lines, vec!["lines: 1 words: 2 chars: 4 bytes: 4 max line length: 3 p"]);
    assert!(report(&Vec::new(), &sel).unwrap().is_empty());
}

#[test]
fn report_refuses_overflowing_total() {
    let sel = all();
    let big = counts(usize::MAX, 0, 0, 0, 0);
    let one = counts(1, 0, 0, 0, 0);
    let results = vec![(big, String::from("a")), (one, String::from("b"))];
    assert!(report(&results, &sel).is_none());
    let mut x = big;
    assert!(!x.can_add(&one));
    x.max_line_length = 3;
    assert!(x.can_add(&Counts::new()));
}

#[test]
fn small_file_threshold() {
    assert_eq!(SMALL_FILE_LIMIT, 512 * 1024);
    assert!(is_small(Some(SMALL_FILE_LIMIT - 1)));
    assert!(!is_small(Some(SMALL_FILE_LIMIT)));
    assert!(!is_small(None));
    assert!(announces_progress(None, true));
    assert!(announces_progress(Some(SMALL_FILE_LIMIT), true));
    assert!(!announces_progress(Some(10), true));
    assert!(!announces_progress(None, false));
}

#[test]
fn fed_tracks_bytes_across_chunks() {
    let mut c = Counter::new(all());
    c.feed(b"abc");
    c.feed(b"de\n");
    assert_eq!(c.fed(), 6);
    assert_eq!(c.finish(None), counts(6, 6, 1, 1, 5));
}

#[test]
fn total_line_is_the_same_in_any_file_order() {
    let sel = all();
    let a = count_slice(sel, b"alpha beta\n");
    let b = count_slice(sel, b"a much longer line here\n\n");
    let c = count_slice(sel, b"x");
    let forward = vec![(a, String::from("a")), (b, String::from("b")), (c, String::from("c"))];
    let backward = vec![(c, String::from("c")), (b, String::from("b")), (a, String::from("a"))];
    let f = report(&forward, &sel).unwrap();
    let g = report(&backward, &sel).unwrap();
    assert_eq!(f.len(), 5);
    assert_eq!(f[4], g[4]);
    assert_eq!(f[4], "lines: 3 words: 8 chars: 37 bytes: 37 max line length: 23 total");
    assert_eq!(f[0], "a");
    assert_eq!(g[0], "c");
}
