use vstd::prelude::*;
use vstd::string::*;

verus! {

/// One turn of a conversation, as the service returns it.
#[derive(Clone, Debug)]
pub struct Message {
    pub role: String,
    pub content: String,
}

/// One answer that the service proposes.
#[derive(Clone, Debug)]
pub struct Choice {
    pub message: Message,
}

/// The service's reply: the answers it proposes, best first.
#[derive(Clone, Debug)]
pub struct Response {
    pub choices: Vec<Choice>,
}

impl Response {
    /// The text shown for a reply: the content of the first choice, and the
    /// empty text where there is none.
    pub open spec fn reply(self) -> Seq<char> {
        if self.choices@.len() > 0 {
            self.choices@[0].message.content@
        } else {
            Seq::<char>::empty()
        }
    }

    /// The text shown for this reply.
    pub fn first_content(&self) -> (output: String)
        ensures
            output@ == self.reply(),
    {
        if self.choices.len() > 0 {
            self.choices[0].message.content.clone()
        } else {
            String::new()
        }
    }
}

/// The value of the authorization header for a key: the word `Bearer`, a
/// space, and the key.
pub fn bearer_token(api_key: &str) -> (token: String)
    ensures
        token@ == "Bearer "@ + api_key@,
{
    let mut token = String::from_str("Bearer ");
    token.append(api_key);
    token
}

} // verus!
