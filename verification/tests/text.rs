use chatboto::chat::is_blank;
use chatboto::segment::{flatten, push_text_segments, Segment, Word};
use chatboto::style::{heading_size, InlineStyle};
use chatboto::text::{chars_of, split_words};
use chatboto::wrap::wrap;

const PLAIN: InlineStyle = InlineStyle { bold: false, italic: false };

fn describe(segments: &Vec<Segment>) -> Vec<String> {
    segments
        .iter()
        .map(|segment| match segment {
            Segment::Text(content, _) => content.clone(),
            Segment::LineBreak => "<br>".to_string(),
        })
        .collect()
}

fn text_words(words: &[&str]) -> Vec<Word> {
    words.iter().map(|w| Word::Text(w.to_string(), PLAIN)).collect()
}

fn line_lengths(words: &Vec<Word>) -> Vec<usize> {
    wrap(words).iter().map(|line| line.words.len()).collect()
}

#[test]
fn words_are_split_at_white_space() {
    assert_eq!(split_words("  one two\tthree\u{a0}four \n"), vec!["one", "two", "three", "four"]);
}

#[test]
fn a_text_without_words_splits_into_nothing() {
    assert_eq!(split_words("").len(), 0);
    assert_eq!(split_words(" \t \u{2003} ").len(), 0);
}

#[test]
fn a_text_without_white_space_is_one_word() {
    assert_eq!(split_words("\u{2022}word"), vec!["\u{2022}word"]);
}

#[test]
fn characters_are_collected_in_order() {
    assert_eq!(chars_of("a\u{e9}z"), vec!['a', '\u{e9}', 'z']);
}

#[test]
fn text_is_cut_at_line_feeds() {
    let mut buffer = Vec::new();
    push_text_segments(&mut buffer, "one\ntwo", PLAIN);
    assert_eq!(describe(&buffer), vec!["one", "<br>", "two"]);
}

#[test]
fn empty_pieces_leave_only_their_breaks() {
    let mut buffer = Vec::new();
    push_text_segments(&mut buffer, "\none\n\ntwo\n", PLAIN);
    assert_eq!(describe(&buffer), vec!["<br>", "one", "<br>", "<br>", "two", "<br>"]);
}

#[test]
fn empty_text_adds_no_segment() {
    let mut buffer = vec![Segment::LineBreak];
    push_text_segments(&mut buffer, "", PLAIN);
    assert_eq!(describe(&buffer), vec!["<br>"]);
}

#[test]
fn segments_keep_the_style_they_were_pushed_with() {
    let bold = InlineStyle { bold: true, italic: false };
    let mut buffer = Vec::new();
    push_text_segments(&mut buffer, "a", bold);
    push_text_segments(&mut buffer, "b", PLAIN);
    match (&buffer[0], &buffer[1]) {
        (Segment::Text(_, first), Segment::Text(_, second)) => {
            assert_eq!(*first, bold);
            assert_eq!(*second, PLAIN);
        }
        _ => panic!("two text segments expected"),
    }
}

#[test]
fn segments_flatten_into_words_and_breaks() {
    let segments = vec![
        Segment::Text(" a  b ".to_string(), PLAIN),
        Segment::LineBreak,
        Segment::Text("   ".to_string(), PLAIN),
        Segment::Text("c".to_string(), PLAIN),
    ];
    let words: Vec<String> = flatten(&segments)
        .iter()
        .map(|word| match word {
            Word::Text(content, _) => content.clone(),
            Word::Break => "<br>".to_string(),
        })
        .collect();
    assert_eq!(words, vec!["a", "b", "<br>", "c"]);
}

#[test]
fn no_words_make_no_lines() {
    assert_eq!(wrap(&Vec::new()).len(), 0);
}

#[test]
fn a_break_alone_makes_one_empty_line() {
    assert_eq!(line_lengths(&vec![Word::Break]), vec![0]);
}

#[test]
fn wrapping_is_greedy() {
    // 30 + 1 + 30 + 1 + 18 = 80 fits; one character more does not.
    let a = "a".repeat(30);
    let b = "b".repeat(18);
    let c = "c".repeat(19);
    assert_eq!(line_lengths(&text_words(&[&a, &a, &b, "x"])), vec![3, 1]);
    assert_eq!(line_lengths(&text_words(&[&a, &a, &c, "x"])), vec![2, 2]);
}

#[test]
fn a_word_of_the_full_budget_fits() {
    let full = "f".repeat(80);
    assert_eq!(line_lengths(&text_words(&[&full, "x", &full])), vec![1, 1, 1]);
}

#[test]
fn the_heading_table() {
    let sizes: Vec<u16> = (1..=6).map(heading_size).collect();
    assert_eq!(sizes, vec![26, 22, 18, 16, 14, 12]);
    assert_eq!(heading_size(0), 12);
    assert_eq!(heading_size(-3), 12);
    assert_eq!(heading_size(i32::MAX), 12);
}

#[test]
fn the_default_style_is_plain() {
    assert_eq!(InlineStyle::default(), PLAIN);
}

#[test]
fn a_style_applies_to_a_run() {
    let run = InlineStyle { bold: true, italic: true }.apply("word", 18);
    assert_eq!(run.content, "word");
    assert!(run.bold);
    assert!(run.italic);
    assert_eq!(run.size, 18);
}

#[test]
fn blank_texts_are_told_apart() {
    assert!(is_blank(""));
    assert!(is_blank(" \t\n\u{a0}"));
    assert!(!is_blank("  x "));
}
