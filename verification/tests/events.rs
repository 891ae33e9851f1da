use chatboto::event::{events_of, MarkdownEvent};

fn kinds(content: &str) -> Vec<String> {
    events_of(content)
        .iter()
        .map(|event| match event {
            MarkdownEvent::StartHeading(level) => format!("h{}(", level),
            MarkdownEvent::EndHeading => ")h".to_string(),
            MarkdownEvent::StartEmphasis => "em(".to_string(),
            MarkdownEvent::EndEmphasis => ")em".to_string(),
            MarkdownEvent::StartStrong => "strong(".to_string(),
            MarkdownEvent::EndStrong => ")strong".to_string(),
            MarkdownEvent::EndParagraph => ")p".to_string(),
            MarkdownEvent::EndListItem => ")li".to_string(),
            MarkdownEvent::Text(text) => format!("text:{}", text),
            MarkdownEvent::Code(text) => format!("code:{}", text),
            MarkdownEvent::SoftBreak => "soft".to_string(),
            MarkdownEvent::HardBreak => "hard".to_string(),
            MarkdownEvent::Unsupported => "_".to_string(),
        })
        .collect()
}

#[test]
fn an_empty_source_has_no_events() {
    assert_eq!(events_of("").len(), 0);
}

#[test]
fn a_heading_is_tokenized_with_its_level() {
    assert_eq!(kinds("### Title"), vec!["h3(", "text:Title", ")h"]);
}

#[test]
fn a_paragraph_is_tokenized() {
    assert_eq!(
        kinds("plain *slanted* **strong** `code`"),
        vec![
            "_",
            "text:plain ",
            "em(",
            "text:slanted",
            ")em",
            "text: ",
            "strong(",
            "text:strong",
            ")strong",
            "text: ",
            "code:code",
            ")p"
        ]
    );
}

#[test]
fn breaks_are_tokenized() {
    assert_eq!(
        kinds("a\nb  \nc"),
        vec!["_", "text:a", "soft", "text:b", "hard", "text:c", ")p"]
    );
}

#[test]
fn a_list_is_tokenized() {
    assert_eq!(
        kinds("- one\n- two"),
        vec!["_", "_", "text:one", ")li", "_", "text:two", ")li", "_"]
    );
}

#[test]
fn what_the_engine_does_not_use_is_unsupported() {
    assert_eq!(kinds("---"), vec!["_"]);
    assert_eq!(kinds("> quote"), vec!["_", "_", "text:quote", ")p", "_"]);
}
