use crate::types::{AIChoice, Gam, Version};
use vstd::prelude::*;
use vstd::string::*;

verus! {

/// One piece of generated text.
#[derive(Clone, Debug)]
pub struct Part {
    pub text: String,
}

/// The pieces that make up one generated answer.
#[derive(Clone, Debug)]
pub struct Content {
    pub parts: Vec<Part>,
}

/// One answer that the service proposes.
#[derive(Clone, Debug)]
pub struct Candidate {
    pub content: Content,
}

/// The service's reply: the answers it proposes, best first.
#[derive(Clone, Debug)]
pub struct Response {
    pub candidates: Vec<Candidate>,
}

impl Response {
    /// The text shown for a reply: the first part of the first candidate,
    /// and the empty text where there is none.
    pub open spec fn reply(self) -> Seq<char> {
        if self.candidates@.len() > 0 && self.candidates@[0].content.parts@.len() > 0 {
            self.candidates@[0].content.parts@[0].text@
        } else {
            Seq::<char>::empty()
        }
    }

    /// The text shown for this reply.
    pub fn first_text(&self) -> (output: String)
        ensures
            output@ == self.reply(),
    {
        if self.candidates.len() > 0 {
            let candidate = &self.candidates[0];
            if candidate.content.parts.len() > 0 {
                return candidate.content.parts[0].text.clone();
            }
        }
        String::new()
    }
}

/// The address that a request to the given model is sent to.
pub open spec fn request_url_of(version: Version, gam: Gam, api_key: Seq<char>) -> Seq<char> {
    "https://generativelanguage.googleapis.com/v1beta/models/"@ + AIChoice::Gemini(
        version,
        gam,
    ).label() + ":generateContent?key="@ + api_key
}

/// The address that a request to the given model is sent to: the service's
/// model path, the model's name, the method, and the key.
pub fn request_url(version: Version, gam: Gam, api_key: &str) -> (url: String)
    ensures
        url@ == request_url_of(version, gam, api_key@),
{
    let mut url = String::from_str("https://generativelanguage.googleapis.com/v1beta/models/");
    url.append(AIChoice::Gemini(version, gam).to_string().as_str());
    url.append(":generateContent?key=");
    url.append(api_key);
    url
}

} // verus!
