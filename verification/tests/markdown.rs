use chatboto::document::{Block, Document, Line};
use chatboto::event::MarkdownEvent;
use chatboto::markdown::{markdown, render_events, MarkdownRenderer};
use chatboto::segment::Word;
use chatboto::style::InlineStyle;

fn contents(line: &Line) -> Vec<String> {
    let mut out = Vec::new();
    for word in &line.words {
        match word {
            Word::Text(content, _) => out.push(content.clone()),
            Word::Break => out.push(String::from("<break>")),
        }
    }
    out
}

fn styles(line: &Line) -> Vec<InlineStyle> {
    let mut out = Vec::new();
    for word in &line.words {
        if let Word::Text(_, style) = word {
            out.push(*style);
        }
    }
    out
}

fn block_lines(block: &Block) -> Vec<Vec<String>> {
    block.lines.iter().map(contents).collect()
}

fn shown(block: &Block) -> Vec<String> {
    let mut out = Vec::new();
    for row in block.rows() {
        let mut text = String::new();
        for run in row {
            text.push_str(&run.content);
        }
        out.push(text);
    }
    out
}

fn sizes(document: &Document) -> Vec<u16> {
    document.blocks.iter().map(|b| b.size).collect()
}

fn words(n: usize, word: &str) -> String {
    vec![word; n].join(" ")
}

const PLAIN: InlineStyle = InlineStyle { bold: false, italic: false };
const BOLD: InlineStyle = InlineStyle { bold: true, italic: false };
const ITALIC: InlineStyle = InlineStyle { bold: false, italic: true };

#[test]
fn empty_source_gives_no_blocks() {
    let document = markdown("");
    assert_eq!(document.blocks.len(), 0);
}

#[test]
fn blank_source_gives_no_blocks() {
    assert_eq!(markdown("  \n\n   \n").blocks.len(), 0);
}

#[test]
fn heading_levels_set_the_block_size() {
    assert_eq!(sizes(&markdown("# Title")), vec![26]);
    assert_eq!(sizes(&markdown("## Title")), vec![22]);
    assert_eq!(sizes(&markdown("### Title")), vec![18]);
    assert_eq!(sizes(&markdown("#### Title")), vec![16]);
    assert_eq!(sizes(&markdown("##### Title")), vec![14]);
    assert_eq!(sizes(&markdown("###### Title")), vec![12]);
}

#[test]
fn heading_makes_exactly_one_block() {
    let document = markdown("# Title");
    assert_eq!(document.blocks.len(), 1);
    assert_eq!(document.blocks[0].size, 26);
    assert_eq!(block_lines(&document.blocks[0]), vec![vec!["Title".to_string()]]);
}

#[test]
fn size_returns_to_body_after_a_heading() {
    let document = markdown("# Title\n\nbody text\n\n## Next\n\nmore");
    assert_eq!(sizes(&document), vec![26, 14, 22, 14]);
}

#[test]
fn paragraph_has_body_size() {
    assert_eq!(sizes(&markdown("just text")), vec![14]);
}

#[test]
fn bold_then_plain_share_a_line() {
    let document = markdown("**bold** text");
    assert_eq!(document.blocks.len(), 1);
    let block = &document.blocks[0];
    assert_eq!(block.lines.len(), 1);
    assert_eq!(contents(&block.lines[0]), vec!["bold", "text"]);
    assert_eq!(styles(&block.lines[0]), vec![BOLD, PLAIN]);
}

#[test]
fn emphasis_sets_italic_only() {
    let document = markdown("*slanted* and **strong** and ***both***");
    let line = &document.blocks[0].lines[0];
    assert_eq!(contents(line), vec!["slanted", "and", "strong", "and", "both"]);
    assert_eq!(
        styles(line),
        vec![ITALIC, PLAIN, BOLD, PLAIN, InlineStyle { bold: true, italic: true }]
    );
}

#[test]
fn words_within_the_budget_stay_on_one_line() {
    // 16 words of 4 characters and 15 separators: 79 characters.
    let text = words(16, "abcd");
    assert_eq!(text.chars().count(), 79);
    let document = markdown(&text);
    assert_eq!(document.blocks.len(), 1);
    assert_eq!(document.blocks[0].lines.len(), 1);
    assert_eq!(document.blocks[0].lines[0].words.len(), 16);
}

#[test]
fn a_line_of_exactly_eighty_characters_is_kept() {
    let text = format!("{} abcde", words(15, "abcd"));
    assert_eq!(text.chars().count(), 80);
    let document = markdown(&text);
    assert_eq!(document.blocks[0].lines.len(), 1);
    assert_eq!(document.blocks[0].lines[0].words.len(), 16);
}

#[test]
fn the_word_that_passes_the_budget_opens_the_second_line() {
    let text = format!("{} overflow", words(16, "abcd"));
    let document = markdown(&text);
    let block = &document.blocks[0];
    assert_eq!(block.lines.len(), 2);
    assert_eq!(block.lines[0].words.len(), 16);
    assert_eq!(contents(&block.lines[1]), vec!["overflow"]);
}

#[test]
fn eighty_one_characters_make_two_lines() {
    let text = format!("{} abcdef", words(15, "abcd"));
    assert_eq!(text.chars().count(), 81);
    let block_lines = block_lines(&markdown(&text).blocks[0]);
    assert_eq!(block_lines.len(), 2);
    assert_eq!(block_lines[1], vec!["abcdef"]);
}

#[test]
fn width_is_counted_in_characters() {
    // 16 words of 4 two-byte characters: 79 characters, 143 bytes.
    let text = words(16, "\u{e9}\u{e9}\u{e9}\u{e9}");
    assert_eq!(text.chars().count(), 79);
    let document = markdown(&text);
    assert_eq!(document.blocks[0].lines.len(), 1);
}

#[test]
fn a_long_word_is_never_split() {
    let long = "x".repeat(200);
    let document = markdown(&long);
    assert_eq!(document.blocks.len(), 1);
    assert_eq!(block_lines(&document.blocks[0]), vec![vec![long]]);
}

#[test]
fn a_long_word_stands_alone_between_its_neighbours() {
    let long = "y".repeat(120);
    let document = markdown(&format!("before {} after", long));
    assert_eq!(
        block_lines(&document.blocks[0]),
        vec![vec!["before".to_string()], vec![long], vec!["after".to_string()]]
    );
}

#[test]
fn a_hard_break_ends_the_line_where_it_stands() {
    let document = markdown("line one  \nline two");
    assert_eq!(document.blocks.len(), 1);
    assert_eq!(
        block_lines(&document.blocks[0]),
        vec![vec!["line", "one"], vec!["line", "two"]]
    );
}

#[test]
fn a_soft_break_ends_the_line_too() {
    let document = markdown("first\nsecond");
    assert_eq!(block_lines(&document.blocks[0]), vec![vec!["first"], vec!["second"]]);
}

#[test]
fn a_break_event_closes_an_empty_line() {
    let events = vec![
        MarkdownEvent::Text("a".to_string()),
        MarkdownEvent::HardBreak,
        MarkdownEvent::HardBreak,
        MarkdownEvent::Text("b".to_string()),
        MarkdownEvent::EndParagraph,
    ];
    let document = render_events(&events);
    let empty: Vec<String> = Vec::new();
    assert_eq!(
        block_lines(&document.blocks[0]),
        vec![vec!["a".to_string()], empty, vec!["b".to_string()]]
    );
}

#[test]
fn a_trailing_break_leaves_one_line() {
    let events = vec![MarkdownEvent::Text("a".to_string()), MarkdownEvent::HardBreak];
    let document = render_events(&events);
    assert_eq!(block_lines(&document.blocks[0]), vec![vec!["a"]]);
}

#[test]
fn line_feeds_inside_text_become_breaks() {
    let events = vec![MarkdownEvent::Text("one\ntwo\n\nthree\n".to_string())];
    let document = render_events(&events);
    let empty: Vec<String> = Vec::new();
    assert_eq!(
        block_lines(&document.blocks[0]),
        vec![
            vec!["one".to_string()],
            vec!["two".to_string()],
            empty,
            vec!["three".to_string()]
        ]
    );
}

#[test]
fn a_list_item_starts_with_the_bullet() {
    let document = markdown("- item 1");
    assert_eq!(document.blocks.len(), 1);
    let block = &document.blocks[0];
    assert_eq!(block.size, 14);
    assert_eq!(block_lines(block), vec![vec!["\u{2022}", "item", "1"]]);
    assert_eq!(shown(block), vec!["\u{2022} item 1"]);
}

#[test]
fn each_list_item_is_a_block() {
    let document = markdown("- one\n- two\n- three");
    assert_eq!(document.blocks.len(), 3);
    assert_eq!(shown(&document.blocks[0]), vec!["\u{2022} one"]);
    assert_eq!(shown(&document.blocks[1]), vec!["\u{2022} two"]);
    assert_eq!(shown(&document.blocks[2]), vec!["\u{2022} three"]);
}

#[test]
fn the_bullet_takes_the_style_in_force() {
    let events = vec![
        MarkdownEvent::StartStrong,
        MarkdownEvent::Text("item".to_string()),
        MarkdownEvent::EndListItem,
    ];
    let document = render_events(&events);
    assert_eq!(styles(&document.blocks[0].lines[0]), vec![BOLD, BOLD]);
}

#[test]
fn code_is_laid_out_as_text() {
    let document = markdown("run `cargo doc` now");
    assert_eq!(block_lines(&document.blocks[0]), vec![vec!["run", "cargo", "doc", "now"]]);
}

#[test]
fn words_come_out_as_they_went_in() {
    let text = "  The quick   brown\tfox  jumps over the lazy dog, again and again, \
                until the line has grown well past the budget of eighty characters.  ";
    let document = markdown(text);
    assert_eq!(document.blocks.len(), 1);
    let mut seen: Vec<String> = Vec::new();
    for line in &document.blocks[0].lines {
        seen.extend(contents(line));
    }
    let expected: Vec<String> = text.split_whitespace().map(String::from).collect();
    assert_eq!(seen, expected);
    assert_eq!(document.blocks[0].lines.len(), 2);
}

#[test]
fn no_line_is_wider_than_the_budget() {
    let text = words(100, "lorem ipsum dolor");
    let document = markdown(&text);
    for row in shown(&document.blocks[0]) {
        assert!(row.chars().count() <= 80);
    }
    assert!(document.blocks[0].lines.len() > 1);
}

#[test]
fn unsupported_events_change_nothing() {
    let events = vec![
        MarkdownEvent::Unsupported,
        MarkdownEvent::Text("kept".to_string()),
        MarkdownEvent::Unsupported,
        MarkdownEvent::EndParagraph,
        MarkdownEvent::Unsupported,
    ];
    let document = render_events(&events);
    assert_eq!(document.blocks.len(), 1);
    assert_eq!(block_lines(&document.blocks[0]), vec![vec!["kept"]]);
}

#[test]
fn unclosed_content_is_flushed_at_the_end() {
    let events = vec![
        MarkdownEvent::Text("closed".to_string()),
        MarkdownEvent::EndParagraph,
        MarkdownEvent::Text("left open".to_string()),
    ];
    let document = render_events(&events);
    assert_eq!(document.blocks.len(), 2);
    assert_eq!(block_lines(&document.blocks[1]), vec![vec!["left", "open"]]);
}

#[test]
fn an_early_end_of_emphasis_clears_italic_only() {
    let events = vec![
        MarkdownEvent::StartStrong,
        MarkdownEvent::StartEmphasis,
        MarkdownEvent::Text("both".to_string()),
        MarkdownEvent::EndEmphasis,
        MarkdownEvent::EndEmphasis,
        MarkdownEvent::Text("bold".to_string()),
        MarkdownEvent::EndStrong,
        MarkdownEvent::Text("plain".to_string()),
    ];
    let document = render_events(&events);
    assert_eq!(
        styles(&document.blocks[0].lines[0]),
        vec![InlineStyle { bold: true, italic: true }, BOLD, PLAIN]
    );
}

#[test]
fn same_kind_markers_do_not_stack() {
    let events = vec![
        MarkdownEvent::StartEmphasis,
        MarkdownEvent::StartEmphasis,
        MarkdownEvent::Text("a".to_string()),
        MarkdownEvent::EndEmphasis,
        MarkdownEvent::Text("b".to_string()),
    ];
    let document = render_events(&events);
    assert_eq!(styles(&document.blocks[0].lines[0]), vec![ITALIC, PLAIN]);
}

#[test]
fn style_is_not_carried_into_the_next_block() {
    let events = vec![
        MarkdownEvent::StartStrong,
        MarkdownEvent::Text("first".to_string()),
        MarkdownEvent::EndParagraph,
        MarkdownEvent::Text("second".to_string()),
        MarkdownEvent::EndParagraph,
    ];
    let document = render_events(&events);
    assert_eq!(styles(&document.blocks[0].lines[0]), vec![BOLD]);
    assert_eq!(styles(&document.blocks[1].lines[0]), vec![PLAIN]);
}

#[test]
fn a_heading_level_out_of_range_takes_the_smallest_size() {
    for level in [0, 6, 7, -1, 100] {
        let events = vec![
            MarkdownEvent::StartHeading(level),
            MarkdownEvent::Text("t".to_string()),
            MarkdownEvent::EndHeading,
        ];
        assert_eq!(sizes(&render_events(&events)), vec![12]);
    }
}

#[test]
fn text_of_white_space_makes_a_block_without_lines() {
    let events = vec![MarkdownEvent::Text("   ".to_string()), MarkdownEvent::EndParagraph];
    let document = render_events(&events);
    assert_eq!(document.blocks.len(), 1);
    assert_eq!(document.blocks[0].lines.len(), 0);
}

#[test]
fn an_empty_flush_adds_nothing() {
    let events = vec![MarkdownEvent::EndParagraph, MarkdownEvent::EndHeading];
    assert_eq!(render_events(&events).blocks.len(), 0);
}

#[test]
fn the_renderer_can_be_driven_by_hand() {
    let mut renderer = MarkdownRenderer::new();
    assert_eq!(renderer.size(), 14);
    assert_eq!(renderer.style(), PLAIN);
    renderer.handle_event(&MarkdownEvent::StartHeading(2));
    assert_eq!(renderer.size(), 22);
    renderer.push_text("Chapter one");
    renderer.handle_event(&MarkdownEvent::EndHeading);
    assert_eq!(renderer.size(), 14);
    renderer.push_text("item");
    renderer.push_list_item();
    renderer.flush_block();
    let document = renderer.finish();
    assert_eq!(sizes(&document), vec![22, 14]);
    assert_eq!(shown(&document.blocks[0]), vec!["Chapter one"]);
    assert_eq!(shown(&document.blocks[1]), vec!["\u{2022} item"]);
}

#[test]
fn rows_carry_style_and_size() {
    let document = markdown("# A **b**");
    let rows = document.blocks[0].rows();
    assert_eq!(rows.len(), 1);
    let row = &rows[0];
    assert_eq!(row.len(), 3);
    assert_eq!((row[0].content.as_str(), row[0].bold, row[0].italic, row[0].size), ("A", false, false, 26));
    assert_eq!((row[1].content.as_str(), row[1].bold, row[1].italic, row[1].size), (" ", false, false, 26));
    assert_eq!((row[2].content.as_str(), row[2].bold, row[2].italic, row[2].size), ("b", true, false, 26));
}
