use chatboto::chat::{copy_turns, key_name, request_turns, Conversation, StatusTimer};
use chatboto::types::{AIChoice, AIMessage, Gam, MessageType, Version};

fn turns(history: &Vec<AIMessage>) -> Vec<(String, String)> {
    history.iter().map(|t| (t.role.clone(), t.content.clone())).collect()
}

fn pair(role: &str, content: &str) -> (String, String) {
    (role.to_string(), content.to_string())
}

#[test]
fn a_new_conversation_is_empty() {
    let conversation = Conversation::new();
    assert_eq!(conversation.messages.len(), 0);
    assert_eq!(conversation.ai_choice, Some(AIChoice::Mistral));
    assert_eq!(conversation.gemini_history.len(), 0);
    assert_eq!(conversation.mistral_history.len(), 0);
}

#[test]
fn a_blank_text_is_not_submitted() {
    let mut conversation = Conversation::new();
    assert!(conversation.action_submit("  \n ".to_string()).is_none());
    assert!(conversation.action_submit(String::new()).is_none());
    assert_eq!(conversation.messages.len(), 0);
}

#[test]
fn a_submitted_text_is_shown_and_asked() {
    let mut conversation = Conversation::new();
    conversation.handle_choice(AIChoice::Gemini(Version::V2_5, Gam::Pro));
    conversation.handle_ai_response("earlier".to_string());
    let request = conversation.action_submit("hello there".to_string()).unwrap();
    assert_eq!(request.choice, AIChoice::Gemini(Version::V2_5, Gam::Pro));
    assert_eq!(request.text, "hello there");
    assert_eq!(turns(&request.history), vec![pair("model", "earlier")]);
    assert_eq!(conversation.messages.len(), 2);
    assert_eq!(conversation.messages[1], (MessageType::Sent, "hello there".to_string()));
}

#[test]
fn without_a_choice_the_question_goes_to_mistral() {
    let mut conversation = Conversation::new();
    conversation.ai_choice = None;
    let request = conversation.action_submit("hi".to_string()).unwrap();
    assert_eq!(request.choice, AIChoice::Mistral);
    assert_eq!(request.history.len(), 0);
}

#[test]
fn an_answer_joins_the_history_of_its_service() {
    let mut conversation = Conversation::new();
    conversation.handle_ai_response("from mistral".to_string());
    conversation.handle_choice(AIChoice::Gemini(Version::V1_5, Gam::Pro));
    conversation.handle_ai_response("from gemini".to_string());
    assert_eq!(turns(&conversation.mistral_history), vec![pair("assistant", "from mistral")]);
    assert_eq!(turns(&conversation.gemini_history), vec![pair("model", "from gemini")]);
    assert_eq!(
        conversation.messages,
        vec![
            (MessageType::Received(AIChoice::Mistral), "from mistral".to_string()),
            (
                MessageType::Received(AIChoice::Gemini(Version::V2_0, Gam::Flash)),
                "from gemini".to_string()
            ),
        ]
    );
}

#[test]
fn an_answer_without_a_choice_is_dropped() {
    let mut conversation = Conversation::new();
    conversation.ai_choice = None;
    conversation.handle_ai_response("lost".to_string());
    assert_eq!(conversation.messages.len(), 0);
    assert_eq!(conversation.gemini_history.len(), 0);
    assert_eq!(conversation.mistral_history.len(), 0);
}

#[test]
fn a_request_carries_the_history_and_the_question() {
    let history = vec![
        AIMessage { role: "user".to_string(), content: "one".to_string() },
        AIMessage { role: "assistant".to_string(), content: "two".to_string() },
    ];
    assert_eq!(
        turns(&request_turns(&history, "three")),
        vec![pair("user", "one"), pair("assistant", "two"), pair("user", "three")]
    );
    assert_eq!(turns(&copy_turns(&history)), turns(&history));
}

#[test]
fn keys_are_kept_by_service() {
    assert_eq!(key_name(Some(AIChoice::Gemini(Version::V2_0, Gam::Flash))), "gemini");
    assert_eq!(key_name(Some(AIChoice::Mistral)), "mistral");
    assert_eq!(key_name(None), "");
}

#[test]
fn a_status_is_cleared_when_its_time_is_up() {
    let mut status = StatusTimer::new();
    status.display(2, "Saved".to_string());
    assert!(status.timer_enabled);
    status.tick();
    status.tick();
    assert_eq!((status.tick, status.timer_enabled, status.message.as_str()), (0, true, "Saved"));
    status.tick();
    assert_eq!((status.tick, status.timer_enabled, status.message.as_str()), (0, false, ""));
}
