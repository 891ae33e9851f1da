use chatboto::gemini::{request_url, Candidate, Content, Part};
use chatboto::mistral::{bearer_token, Choice, Message};
use chatboto::types::{AIChoice, Gam, Version};

fn candidate(parts: &[&str]) -> Candidate {
    Candidate {
        content: Content { parts: parts.iter().map(|t| Part { text: t.to_string() }).collect() },
    }
}

#[test]
fn model_names() {
    assert_eq!(Gam::Flash.to_string(), "flash");
    assert_eq!(Gam::Pro.to_string(), "pro");
    assert_eq!(Version::V1_5.to_string(), "1.5");
    assert_eq!(Version::V2_0.to_string(), "2.0");
    assert_eq!(Version::V2_5.to_string(), "2.5");
    assert_eq!(AIChoice::Mistral.to_string(), "mistral");
    assert_eq!(AIChoice::Gemini(Version::V2_5, Gam::Pro).to_string(), "gemini-2.5-pro");
    assert_eq!(AIChoice::Gemini(Version::V1_5, Gam::Flash).to_string(), "gemini-1.5-flash");
}

#[test]
fn defaults() {
    assert_eq!(Gam::default(), Gam::Flash);
    assert_eq!(Version::default(), Version::V2_0);
    assert_eq!(AIChoice::default(), AIChoice::Mistral);
}

#[test]
fn seven_assistants_are_offered() {
    let all = AIChoice::all();
    assert_eq!(all.len(), 7);
    assert_eq!(all[0], AIChoice::Gemini(Version::V1_5, Gam::Flash));
    assert_eq!(all[5], AIChoice::Gemini(Version::V2_5, Gam::Pro));
    assert_eq!(all[6], AIChoice::Mistral);
}

#[test]
fn every_name_is_parsed_back() {
    for choice in AIChoice::all() {
        assert_eq!(AIChoice::parse(&choice.to_string()), Some(choice));
    }
}

#[test]
fn other_names_are_not_parsed() {
    assert_eq!(AIChoice::parse("gemini"), None);
    assert_eq!(AIChoice::parse("gemini-3.0-pro"), None);
    assert_eq!(AIChoice::parse("Mistral"), None);
    assert_eq!(AIChoice::parse(""), None);
}

#[test]
fn the_first_part_of_the_first_candidate_is_the_reply() {
    let response = chatboto::gemini::Response {
        candidates: vec![candidate(&["first", "second"]), candidate(&["other"])],
    };
    assert_eq!(response.first_text(), "first");
}

#[test]
fn a_reply_without_text_is_empty() {
    let none = chatboto::gemini::Response { candidates: Vec::new() };
    assert_eq!(none.first_text(), "");
    let hollow = chatboto::gemini::Response { candidates: vec![candidate(&[])] };
    assert_eq!(hollow.first_text(), "");
}

#[test]
fn the_request_address_names_model_and_key() {
    assert_eq!(
        request_url(Version::V2_0, Gam::Flash, "k3y"),
        "https://generativelanguage.googleapis.com/v1beta/models/gemini-2.0-flash:generateContent?key=k3y"
    );
}

#[test]
fn the_first_choice_is_the_reply() {
    let response = chatboto::mistral::Response {
        choices: vec![
            Choice { message: Message { role: "assistant".into(), content: "hello".into() } },
            Choice { message: Message { role: "assistant".into(), content: "other".into() } },
        ],
    };
    assert_eq!(response.first_content(), "hello");
    let none = chatboto::mistral::Response { choices: Vec::new() };
    assert_eq!(none.first_content(), "");
}

#[test]
fn the_bearer_token() {
    assert_eq!(bearer_token("abc"), "Bearer abc");
}
