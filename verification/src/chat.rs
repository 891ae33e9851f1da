use crate::text::{char_is_whitespace, chars_of, is_whitespace};
use crate::types::{AIChoice, AIMessage, Gam, MessageType, Version};
use vstd::prelude::*;
use vstd::string::*;

verus! {

/// Whether a text holds nothing but white space.
pub open spec fn is_blank_text(text: Seq<char>) -> bool {
    forall|i: int| 0 <= i < text.len() ==> is_whitespace(#[trigger] text[i])
}

/// Whether `text` holds nothing but white space.
pub fn is_blank(text: &str) -> (blank: bool)
    ensures
        blank == is_blank_text(text@),
{
    let chars = chars_of(text);
    let mut i: usize = 0;
    while i < chars.len()
        invariant
            i <= chars.len(),
            chars@ == text@,
            forall|j: int| 0 <= j < i ==> is_whitespace(#[trigger] text@[j]),
        decreases chars.len() - i,
    {
        if !char_is_whitespace(chars[i]) {
            return false;
        }
        i += 1;
    }
    true
}

/// What an [`AIMessage`] stands for.
pub struct TurnView {
    pub role: Seq<char>,
    pub content: Seq<char>,
}

impl View for AIMessage {
    type V = TurnView;

    open spec fn view(&self) -> TurnView {
        TurnView { role: self.role@, content: self.content@ }
    }
}

/// The view of each turn of a history.
pub open spec fn turns_view(turns: Seq<AIMessage>) -> Seq<TurnView> {
    turns.map_values(|t: AIMessage| t@)
}

/// The view of each shown message of a conversation.
pub open spec fn messages_view(messages: Seq<(MessageType, String)>) -> Seq<
    (MessageType, Seq<char>),
> {
    messages.map_values(|m: (MessageType, String)| (m.0, m.1@))
}

/// The turn in which the user says `text`.
pub open spec fn user_turn(text: Seq<char>) -> TurnView {
    TurnView { role: "user"@, content: text }
}

/// The turns that a request carries: the history, then what the user says
/// now.
pub fn request_turns(history: &Vec<AIMessage>, text: &str) -> (turns: Vec<AIMessage>)
    ensures
        turns_view(turns@) == turns_view(history@).push(user_turn(text@)),
{
    let mut turns = copy_turns(history);
    let said = AIMessage { role: String::from_str("user"), content: String::from_str(text) };
    proof {
        assert(turns_view(turns@.push(said)) =~= turns_view(turns@).push(said@));
    }
    turns.push(said);
    turns
}

/// The name under which the key of the chosen assistant's service is kept,
/// and the empty name where no assistant is chosen.
pub open spec fn key_name_of(choice: Option<AIChoice>) -> Seq<char> {
    match choice {
        Some(AIChoice::Gemini(_, _)) => "gemini"@,
        Some(AIChoice::Mistral) => "mistral"@,
        None => ""@,
    }
}

/// The name under which the key of the chosen assistant's service is kept.
pub fn key_name(choice: Option<AIChoice>) -> (name: &'static str)
    ensures
        name@ == key_name_of(choice),
{
    match choice {
        Some(AIChoice::Gemini(_, _)) => "gemini",
        Some(AIChoice::Mistral) => "mistral",
        None => "",
    }
}

/// A conversation: the messages that are shown, the assistant that is
/// chosen, and what has been said to each service so far.
#[derive(Debug)]
pub struct Conversation {
    pub messages: Vec<(MessageType, String)>,
    pub ai_choice: Option<AIChoice>,
    pub gemini_history: Vec<AIMessage>,
    pub mistral_history: Vec<AIMessage>,
}

/// What a [`Conversation`] stands for.
pub struct ConversationView {
    pub messages: Seq<(MessageType, Seq<char>)>,
    pub ai_choice: Option<AIChoice>,
    pub gemini_history: Seq<TurnView>,
    pub mistral_history: Seq<TurnView>,
}

impl View for Conversation {
    type V = ConversationView;

    open spec fn view(&self) -> ConversationView {
        ConversationView {
            messages: messages_view(self.messages@),
            ai_choice: self.ai_choice,
            gemini_history: turns_view(self.gemini_history@),
            mistral_history: turns_view(self.mistral_history@),
        }
    }
}

/// A question that is ready to be sent.
#[derive(Debug)]
pub struct Request {
    pub choice: AIChoice,
    pub text: String,
    pub history: Vec<AIMessage>,
}

/// The assistant that a question goes to: the chosen one, and Mistral where
/// none is chosen.
pub open spec fn asked(choice: Option<AIChoice>) -> AIChoice {
    match choice {
        Some(c) => c,
        None => AIChoice::Mistral,
    }
}

/// What has been said so far to the service of the assistant `choice`.
pub open spec fn history_of(c: ConversationView, choice: AIChoice) -> Seq<TurnView> {
    match choice {
        AIChoice::Gemini(_, _) => c.gemini_history,
        AIChoice::Mistral => c.mistral_history,
    }
}

/// The conversation after the text `value` has been submitted: a blank text
/// changes nothing, any other is shown as a sent message.
pub open spec fn after_submit(c: ConversationView, value: Seq<char>) -> ConversationView {
    if is_blank_text(value) {
        c
    } else {
        ConversationView {
            messages: c.messages.push((MessageType::Sent, value)),
            ai_choice: c.ai_choice,
            gemini_history: c.gemini_history,
            mistral_history: c.mistral_history,
        }
    }
}

/// The conversation after the service has answered `response`. The answer
/// is shown as a received message and joins the history of the chosen
/// assistant's service, in the role that this service gives its own turns;
/// with no assistant chosen, nothing changes.
pub open spec fn after_response(c: ConversationView, response: Seq<char>) -> ConversationView {
    match c.ai_choice {
        Some(AIChoice::Gemini(_, _)) => ConversationView {
            messages: c.messages.push(
                (MessageType::Received(AIChoice::Gemini(Version::V2_0, Gam::Flash)), response),
            ),
            ai_choice: c.ai_choice,
            gemini_history: c.gemini_history.push(TurnView { role: "model"@, content: response }),
            mistral_history: c.mistral_history,
        },
        Some(AIChoice::Mistral) => ConversationView {
            messages: c.messages.push((MessageType::Received(AIChoice::Mistral), response)),
            ai_choice: c.ai_choice,
            gemini_history: c.gemini_history,
            mistral_history: c.mistral_history.push(
                TurnView { role: "assistant"@, content: response },
            ),
        },
        None => c,
    }
}

impl Conversation {
    /// A conversation in which nothing has been said, with the default
    /// assistant chosen.
    pub fn new() -> (conversation: Conversation)
        ensures
            conversation@ == (ConversationView {
                messages: Seq::empty(),
                ai_choice: Some(AIChoice::Mistral),
                gemini_history: Seq::empty(),
                mistral_history: Seq::empty(),
            }),
    {
        let conversation = Conversation {
            messages: Vec::new(),
            ai_choice: Some(AIChoice::Mistral),
            gemini_history: Vec::new(),
            mistral_history: Vec::new(),
        };
        assert(conversation@.messages =~= Seq::empty());
        assert(conversation@.gemini_history =~= Seq::empty());
        assert(conversation@.mistral_history =~= Seq::empty());
        conversation
    }

    /// Chooses the assistant that the next questions go to.
    pub fn handle_choice(&mut self, choice: AIChoice)
        ensures
            final(self)@ == (ConversationView { ai_choice: Some(choice), ..old(self)@ }),
    {
        self.ai_choice = Some(choice);
    }

    /// Submits what the user has typed. A blank text is dropped. Any other
    /// is shown as a sent message, and comes back as the question to send:
    /// to the chosen assistant, with what has been said to its service so
    /// far.
    pub fn action_submit(&mut self, value: String) -> (request: Option<Request>)
        ensures
            final(self)@ == after_submit(old(self)@, value@),
            request is None <==> is_blank_text(value@),
            request matches Some(r) ==> {
                &&& r.choice == asked(old(self)@.ai_choice)
                &&& r.text@ == value@
                &&& turns_view(r.history@) == history_of(old(self)@, r.choice)
            },
    {
        if is_blank(value.as_str()) {
            return None;
        }
        let shown = (MessageType::Sent, value.clone());
        proof {
            assert(messages_view(self.messages@.push(shown)) =~= messages_view(
                self.messages@,
            ).push((MessageType::Sent, value@)));
        }
        self.messages.push(shown);
        let choice = match self.ai_choice {
            Some(c) => c,
            None => AIChoice::Mistral,
        };
        let history = match choice {
            AIChoice::Gemini(_, _) => copy_turns(&self.gemini_history),
            AIChoice::Mistral => copy_turns(&self.mistral_history),
        };
        Some(Request { choice, text: value, history })
    }

    /// Takes the answer of the service.
    pub fn handle_ai_response(&mut self, response: String)
        ensures
            final(self)@ == after_response(old(self)@, response@),
    {
        match self.ai_choice {
            Some(AIChoice::Gemini(_, _)) => {
                let shown = (
                    MessageType::Received(AIChoice::Gemini(Version::V2_0, Gam::Flash)),
                    response.clone(),
                );
                let turn = AIMessage { role: String::from_str("model"), content: response };
                proof {
                    assert(messages_view(self.messages@.push(shown)) =~= messages_view(
                        self.messages@,
                    ).push((shown.0, response@)));
                    assert(turns_view(self.gemini_history@.push(turn)) =~= turns_view(
                        self.gemini_history@,
                    ).push(turn@));
                }
                self.messages.push(shown);
                self.gemini_history.push(turn);
            },
            Some(AIChoice::Mistral) => {
                let shown = (MessageType::Received(AIChoice::Mistral), response.clone());
                let turn = AIMessage { role: String::from_str("assistant"), content: response };
                proof {
                    assert(messages_view(self.messages@.push(shown)) =~= messages_view(
                        self.messages@,
                    ).push((shown.0, response@)));
                    assert(turns_view(self.mistral_history@.push(turn)) =~= turns_view(
                        self.mistral_history@,
                    ).push(turn@));
                }
                self.messages.push(shown);
                self.mistral_history.push(turn);
            },
            None => {},
        }
    }
}

/// A copy of a history.
pub fn copy_turns(history: &Vec<AIMessage>) -> (turns: Vec<AIMessage>)
    ensures
        turns_view(turns@) == turns_view(history@),
{
    let mut turns: Vec<AIMessage> = Vec::new();
    let mut i: usize = 0;
    while i < history.len()
        invariant
            i <= history.len(),
            turns_view(turns@) == turns_view(history@).take(i as int),
        decreases history.len() - i,
    {
        let turn = AIMessage {
            role: history[i].role.clone(),
            content: history[i].content.clone(),
        };
        proof {
            assert(turns_view(turns@.push(turn)) =~= turns_view(turns@).push(turn@));
            assert(turns_view(history@).take(i + 1) =~= turns_view(history@).take(i as int).push(
                history@[i as int]@,
            ));
        }
        turns.push(turn);
        i += 1;
    }
    assert(turns_view(history@).take(i as int) =~= turns_view(history@));
    turns
}

/// The status line and its countdown: a message that is shown for some
/// seconds and then cleared.
#[derive(Debug)]
pub struct StatusTimer {
    pub tick: u64,
    pub timer_enabled: bool,
    pub message: String,
}

/// What a [`StatusTimer`] stands for.
pub struct StatusView {
    pub tick: u64,
    pub timer_enabled: bool,
    pub message: Seq<char>,
}

impl View for StatusTimer {
    type V = StatusView;

    open spec fn view(&self) -> StatusView {
        StatusView { tick: self.tick, timer_enabled: self.timer_enabled, message: self.message@ }
    }
}

/// The status line after one second has passed: one second less to go, or,
/// where none was left, the message cleared and the countdown stopped.
pub open spec fn after_tick(s: StatusView) -> StatusView {
    if s.tick > 0 {
        StatusView { tick: (s.tick - 1) as u64, timer_enabled: s.timer_enabled, message: s.message }
    } else {
        StatusView { tick: 0, timer_enabled: false, message: Seq::empty() }
    }
}

impl StatusTimer {
    /// A status line that shows nothing.
    pub fn new() -> (status: StatusTimer)
        ensures
            status@ == (StatusView { tick: 0, timer_enabled: false, message: Seq::empty() }),
    {
        StatusTimer { tick: 0, timer_enabled: false, message: String::new() }
    }

    /// Shows `msg` for `seconds` seconds.
    pub fn display(&mut self, seconds: u64, msg: String)
        ensures
            final(self)@ == (StatusView { tick: seconds, timer_enabled: true, message: msg@ }),
    {
        self.timer_enabled = true;
        self.message = msg;
        self.tick = seconds;
    }

    /// Lets one second pass.
    pub fn tick(&mut self)
        ensures
            final(self)@ == after_tick(old(self)@),
    {
        if self.tick > 0 {
            self.tick = self.tick - 1;
        } else {
            self.timer_enabled = false;
            self.message = String::new();
            self.tick = 0;
        }
    }
}

/// A message that is shown for `seconds` seconds is cleared by the tick
/// that follows them, and not before.
pub proof fn lemma_status_countdown(s: StatusView, ticks: nat)
    requires
        s.timer_enabled,
    ensures
        ticks <= s.tick ==> after_ticks(s, ticks) == (StatusView {
            tick: (s.tick - ticks) as u64,
            timer_enabled: true,
            message: s.message,
        }),
        ticks == s.tick + 1 ==> after_ticks(s, ticks) == (StatusView {
            tick: 0,
            timer_enabled: false,
            message: Seq::empty(),
        }),
    decreases ticks,
{
    if ticks > 0 {
        lemma_status_countdown(s, (ticks - 1) as nat);
    }
}

/// The status line after `ticks` seconds have passed.
pub open spec fn after_ticks(s: StatusView, ticks: nat) -> StatusView
    decreases ticks,
{
    if ticks == 0 {
        s
    } else {
        after_tick(after_ticks(s, (ticks - 1) as nat))
    }
}

} // verus!
