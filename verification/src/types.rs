use vstd::prelude::*;
use vstd::string::*;

verus! {

/// One turn of a conversation, as the chat services exchange it.
#[derive(Clone, Debug, PartialEq, Eq)]
pub struct AIMessage {
    pub role: String,
    pub content: String,
}

/// The Gemini model family.
#[derive(Clone, Copy, Debug, PartialEq, Eq, Structural)]
pub enum Gam {
    Flash,
    Pro,
}

/// The Gemini model generation.
#[derive(Clone, Copy, Debug, PartialEq, Eq, Structural)]
pub enum Version {
    V1_5,
    V2_0,
    V2_5,
}

/// The assistant a conversation is held with.
#[derive(Clone, Copy, Debug, PartialEq, Eq, Structural)]
pub enum AIChoice {
    Gemini(Version, Gam),
    Mistral,
}

/// The screen that is shown.
#[derive(Clone, Copy, Debug, PartialEq, Eq, Structural)]
pub enum Screen {
    ChatScreen,
    SettingScreen,
}

/// Which way a message of the conversation went.
#[derive(Clone, Copy, Debug, PartialEq, Eq, Structural)]
pub enum MessageType {
    Sent,
    Received(AIChoice),
}

impl Default for Gam {
    fn default() -> (gam: Gam)
        ensures
            gam == Gam::Flash,
    {
        Gam::Flash
    }
}

impl Default for Version {
    fn default() -> (version: Version)
        ensures
            version == Version::V2_0,
    {
        Version::V2_0
    }
}

impl Default for AIChoice {
    fn default() -> (choice: AIChoice)
        ensures
            choice == AIChoice::Mistral,
    {
        AIChoice::Mistral
    }
}

impl Gam {
    /// The family as it is written in a model name.
    pub open spec fn label(self) -> Seq<char> {
        match self {
            Gam::Flash => "flash"@,
            Gam::Pro => "pro"@,
        }
    }

    /// The family as it is written in a model name: `flash` or `pro`.
    pub fn to_string(&self) -> (name: String)
        ensures
            name@ == self.label(),
    {
        match self {
            Gam::Flash => String::from_str("flash"),
            Gam::Pro => String::from_str("pro"),
        }
    }
}

impl Version {
    /// The generation as it is written in a model name.
    pub open spec fn label(self) -> Seq<char> {
        match self {
            Version::V1_5 => "1.5"@,
            Version::V2_0 => "2.0"@,
            Version::V2_5 => "2.5"@,
        }
    }

    /// The generation as it is written in a model name: `1.5`, `2.0` or
    /// `2.5`.
    pub fn to_string(&self) -> (name: String)
        ensures
            name@ == self.label(),
    {
        match self {
            Version::V1_5 => String::from_str("1.5"),
            Version::V2_0 => String::from_str("2.0"),
            Version::V2_5 => String::from_str("2.5"),
        }
    }
}

/// The assistants that can be chosen, in the order in which they are
/// offered.
pub open spec fn all_choices() -> Seq<AIChoice> {
    seq![
        AIChoice::Gemini(Version::V1_5, Gam::Flash),
        AIChoice::Gemini(Version::V1_5, Gam::Pro),
        AIChoice::Gemini(Version::V2_0, Gam::Flash),
        AIChoice::Gemini(Version::V2_0, Gam::Pro),
        AIChoice::Gemini(Version::V2_5, Gam::Flash),
        AIChoice::Gemini(Version::V2_5, Gam::Pro),
        AIChoice::Mistral,
    ]
}

/// Every assistant is among those offered.
pub proof fn lemma_all_choices_complete(choice: AIChoice)
    ensures
        exists|i: int| 0 <= i < all_choices().len() && all_choices()[i] == choice,
{
    let i: int = match choice {
        AIChoice::Gemini(Version::V1_5, Gam::Flash) => 0,
        AIChoice::Gemini(Version::V1_5, Gam::Pro) => 1,
        AIChoice::Gemini(Version::V2_0, Gam::Flash) => 2,
        AIChoice::Gemini(Version::V2_0, Gam::Pro) => 3,
        AIChoice::Gemini(Version::V2_5, Gam::Flash) => 4,
        AIChoice::Gemini(Version::V2_5, Gam::Pro) => 5,
        AIChoice::Mistral => 6,
    };
    assert(all_choices()[i] == choice);
}

/// No two assistants share a name.
pub proof fn lemma_labels_differ(a: AIChoice, b: AIChoice)
    requires
        a.label() == b.label(),
    ensures
        a == b,
{
    reveal_strlit("gemini-");
    reveal_strlit("-");
    reveal_strlit("mistral");
    reveal_strlit("flash");
    reveal_strlit("pro");
    reveal_strlit("1.5");
    reveal_strlit("2.0");
    reveal_strlit("2.5");
    match (a, b) {
        (AIChoice::Gemini(va, ga), AIChoice::Gemini(vb, gb)) => {
            let la = a.label();
            let lb = b.label();
            assert(la.len() == 11 + ga.label().len());
            assert(lb.len() == 11 + gb.label().len());
            assert(ga == gb);
            assert(la[7] == va.label()[0]);
            assert(lb[7] == vb.label()[0]);
            assert(la[9] == va.label()[2]);
            assert(lb[9] == vb.label()[2]);
        },
        (AIChoice::Gemini(va, ga), AIChoice::Mistral) => {
            assert(a.label().len() == 11 + ga.label().len());
        },
        (AIChoice::Mistral, AIChoice::Gemini(vb, gb)) => {
            assert(b.label().len() == 11 + gb.label().len());
        },
        (AIChoice::Mistral, AIChoice::Mistral) => {},
    }
}

impl AIChoice {
    /// The assistant's full model name: `mistral`, or `gemini-` followed by
    /// the generation, a hyphen and the family.
    pub open spec fn label(self) -> Seq<char> {
        match self {
            AIChoice::Gemini(version, gam) => "gemini-"@ + version.label() + "-"@ + gam.label(),
            AIChoice::Mistral => "mistral"@,
        }
    }

    /// The assistant's full model name.
    pub fn to_string(&self) -> (name: String)
        ensures
            name@ == self.label(),
    {
        match self {
            AIChoice::Gemini(version, gam) => {
                let mut name = String::from_str("gemini-");
                name.append(version.to_string().as_str());
                name.append("-");
                name.append(gam.to_string().as_str());
                name
            },
            AIChoice::Mistral => String::from_str("mistral"),
        }
    }

    /// The assistants that can be chosen, in the order in which they are
    /// offered.
    pub fn all() -> (choices: Vec<AIChoice>)
        ensures
            choices@ == all_choices(),
    {
        let mut choices: Vec<AIChoice> = Vec::new();
        choices.push(AIChoice::Gemini(Version::V1_5, Gam::Flash));
        choices.push(AIChoice::Gemini(Version::V1_5, Gam::Pro));
        choices.push(AIChoice::Gemini(Version::V2_0, Gam::Flash));
        choices.push(AIChoice::Gemini(Version::V2_0, Gam::Pro));
        choices.push(AIChoice::Gemini(Version::V2_5, Gam::Flash));
        choices.push(AIChoice::Gemini(Version::V2_5, Gam::Pro));
        choices.push(AIChoice::Mistral);
        assert(choices@ =~= all_choices());
        choices
    }

    /// The assistant that a stored name stands for: the one whose name it
    /// is, and none where it is the name of no assistant.
    pub fn parse(name: &str) -> (choice: Option<AIChoice>)
        ensures
            choice matches Some(c) ==> c.label() == name@,
            choice is None ==> forall|c: AIChoice| #[trigger] c.label() != name@,
    {
        let choices = AIChoice::all();
        let wanted = String::from_str(name);
        let mut i: usize = 0;
        while i < choices.len()
            invariant
                i <= choices.len(),
                choices@ == all_choices(),
                wanted@ == name@,
                forall|j: int| 0 <= j < i ==> all_choices()[j].label() != name@,
            decreases choices.len() - i,
        {
            let candidate = choices[i];
            if candidate.to_string() == wanted {
                return Some(candidate);
            }
            i += 1;
        }
        proof {
            assert forall|c: AIChoice| c.label() != name@ by {
                lemma_all_choices_complete(c);
            }
        }
        None
    }
}

} // verus!
