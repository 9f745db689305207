//! Decoding of an inbound text frame into a conversation.
use ollama_rs::generation::chat::{ChatMessage, MessageRole};
use vstd::prelude::*;

verus! {

/// A role tag as the backend's message schema spells it.
#[derive(Clone, Copy, Debug, PartialEq, Eq, Structural)]
pub enum RoleTag {
    System,
    User,
    Assistant,
    Tool,
}

/// The roles a client may use in a conversation.
#[derive(Clone, Copy, Debug, PartialEq, Eq, Structural)]
pub enum Role {
    System,
    User,
    Assistant,
}

/// One message as the JSON decoder produced it, before its role is checked.
#[derive(Clone, Debug)]
pub struct ParsedMessage {
    pub role: RoleTag,
    pub content: String,
}

/// One message of an accepted conversation.
#[derive(Clone, Debug)]
pub struct Message {
    pub role: Role,
    pub content: String,
}

/// Why an inbound text frame is not a conversation.
#[derive(Clone, Copy, Debug, PartialEq, Eq, Structural)]
pub enum DecodeError {
    /// The text is not a JSON array of chat messages.
    Malformed,
    /// The array holds no message.
    Empty,
    /// The message at `index` (the first such) has a role outside the accepted set.
    UnsupportedRole { index: usize },
}

/// A non-empty, ordered sequence of messages with accepted roles.
#[derive(Clone, Debug)]
pub struct Conversation {
    messages: Vec<Message>,
}

impl View for ParsedMessage {
    type V = (RoleTag, Seq<char>);

    open spec fn view(&self) -> (RoleTag, Seq<char>) {
        (self.role, self.content@)
    }
}

impl View for Message {
    type V = (Role, Seq<char>);

    open spec fn view(&self) -> (Role, Seq<char>) {
        (self.role, self.content@)
    }
}

impl View for Conversation {
    type V = Seq<(Role, Seq<char>)>;

    closed spec fn view(&self) -> Seq<(Role, Seq<char>)> {
        self.messages@.map_values(|m: Message| m@)
    }
}

/// The accepted role that a tag stands for, if any.
pub open spec fn role_of_tag(t: RoleTag) -> Option<Role> {
    match t {
        RoleTag::System => Some(Role::System),
        RoleTag::User => Some(Role::User),
        RoleTag::Assistant => Some(Role::Assistant),
        RoleTag::Tool => None,
    }
}

/// The messages that the JSON text `text` decodes to, as a list of
/// `ollama_rs` chat messages, or `None` where it does not decode.
pub uninterp spec fn parsed_chat_json(text: Seq<char>) -> Option<Seq<(RoleTag, Seq<char>)>>;

/// Whether `r` is what checking the decoded messages `p` gives: the first
/// message with an unsupported role is reported, an empty list is refused,
/// and otherwise every message is kept, in order, with its role converted.
pub open spec fn check_outcome(
    p: Seq<(RoleTag, Seq<char>)>,
    r: Result<Seq<(Role, Seq<char>)>, DecodeError>,
) -> bool {
    match r {
        Ok(m) => {
            &&& p.len() > 0
            &&& forall|j: int| 0 <= j < p.len() ==> (#[trigger] p[j]).0 != RoleTag::Tool
            &&& m.len() == p.len()
            &&& forall|j: int|
                0 <= j < p.len() ==> #[trigger] m[j] == (role_of_tag(p[j].0).unwrap(), p[j].1)
        },
        Err(DecodeError::Empty) => p.len() == 0,
        Err(DecodeError::UnsupportedRole { index }) => {
            &&& index < p.len()
            &&& p[index as int].0 == RoleTag::Tool
            &&& forall|j: int| 0 <= j < index ==> (#[trigger] p[j]).0 != RoleTag::Tool
        },
        Err(DecodeError::Malformed) => false,
    }
}

/// What decoding the text `text` gives.
pub open spec fn decode_outcome(
    text: Seq<char>,
    r: Result<Seq<(Role, Seq<char>)>, DecodeError>,
) -> bool {
    match parsed_chat_json(text) {
        None => r == Err::<Seq<(Role, Seq<char>)>, DecodeError>(DecodeError::Malformed),
        Some(p) => check_outcome(p, r),
    }
}

/// The view of a decoding result.
pub open spec fn result_view(r: Result<Conversation, DecodeError>) -> Result<
    Seq<(Role, Seq<char>)>,
    DecodeError,
> {
    match r {
        Ok(c) => Ok(c@),
        Err(e) => Err(e),
    }
}

/// Decoding is a function of the text: two results that decoding the same
/// text may give are equal.
pub proof fn lemma_decode_deterministic(
    text: Seq<char>,
    r1: Result<Seq<(Role, Seq<char>)>, DecodeError>,
    r2: Result<Seq<(Role, Seq<char>)>, DecodeError>,
)
    requires
        decode_outcome(text, r1),
        decode_outcome(text, r2),
    ensures
        r1 == r2,
{
    if let Some(p) = parsed_chat_json(text) {
        match (r1, r2) {
            (Ok(m1), Ok(m2)) => {
                assert(m1 =~= m2);
            },
            (Ok(_), Err(DecodeError::UnsupportedRole { index })) => {
                assert(p[index as int].0 != RoleTag::Tool);
            },
            (Err(DecodeError::UnsupportedRole { index }), Ok(_)) => {
                assert(p[index as int].0 != RoleTag::Tool);
            },
            (
                Err(DecodeError::UnsupportedRole { index: i1 }),
                Err(DecodeError::UnsupportedRole { index: i2 }),
            ) => {
                if i1 < i2 {
                    assert(p[i1 as int].0 != RoleTag::Tool);
                } else if i2 < i1 {
                    assert(p[i2 as int].0 != RoleTag::Tool);
                }
            },
            _ => {},
        }
    }
}

/// No text decodes to a conversation without messages: an empty array is
/// refused as `Empty`, like any other decode failure.
pub proof fn lemma_no_empty_conversation(text: Seq<char>, r: Result<Seq<(Role, Seq<char>)>, DecodeError>)
    requires
        decode_outcome(text, r),
    ensures
        r matches Ok(m) ==> m.len() > 0,
        parsed_chat_json(text) == Some(Seq::<(RoleTag, Seq<char>)>::empty()) ==> r == Err::<
            Seq<(Role, Seq<char>)>,
            DecodeError,
        >(DecodeError::Empty),
{
}

impl Conversation {
    /// A conversation holds at least one message.
    pub open spec fn wf(&self) -> bool {
        self@.len() > 0
    }

    /// The messages, in order.
    pub fn messages(&self) -> (r: &Vec<Message>)
        ensures
            r@.map_values(|m: Message| m@) == self@,
    {
        &self.messages
    }

    /// The number of messages.
    pub fn len(&self) -> (r: usize)
        ensures
            r == self@.len(),
    {
        self.messages.len()
    }
}

/// Relies on serde_json::from_str for a `Vec<ollama_rs::generation::chat::ChatMessage>`:
/// `Ok` exactly where the text decodes, with each message's role and content.
#[verifier::external_body]
fn parse_chat_json(text: &str) -> (r: Result<Vec<ParsedMessage>, serde_json::Error>)
    ensures
        match r {
            Ok(v) => parsed_chat_json(text@) == Some(v@.map_values(|m: ParsedMessage| m@)),
            Err(_) => parsed_chat_json(text@) is None,
        },
{
    serde_json::from_str::<Vec<ChatMessage>>(text).map(|v| v.into_iter().map(|m| ParsedMessage {
        role: match m.role {
            MessageRole::System => RoleTag::System,
            MessageRole::User => RoleTag::User,
            MessageRole::Assistant => RoleTag::Assistant,
            MessageRole::Tool => RoleTag::Tool,
        },
        content: m.content,
    }).collect())
}

#[verifier::external_type_specification]
#[verifier::external_body]
pub struct ExJsonError(serde_json::Error);

/// Checks decoded messages: refuses an empty list and any role outside the
/// accepted set, and keeps the messages in order otherwise.
pub fn check_messages(parsed: Vec<ParsedMessage>) -> (r: Result<Conversation, DecodeError>)
    ensures
        check_outcome(parsed@.map_values(|m: ParsedMessage| m@), result_view(r)),
        r matches Ok(c) ==> c.wf(),
{
    let ghost p = parsed@.map_values(|m: ParsedMessage| m@);
    if parsed.len() == 0 {
        return Err(DecodeError::Empty);
    }
    let mut messages: Vec<Message> = Vec::new();
    let mut i: usize = 0;
    while i < parsed.len()
        invariant
            0 <= i <= parsed@.len(),
            p == parsed@.map_values(|m: ParsedMessage| m@),
            messages@.len() == i,
            forall|j: int| 0 <= j < i ==> (#[trigger] p[j]).0 != RoleTag::Tool,
            forall|j: int|
                0 <= j < i ==> #[trigger] messages@[j]@ == (role_of_tag(p[j].0).unwrap(), p[j].1),
        decreases parsed@.len() - i,
    {
        let m = &parsed[i];
        let role = match m.role {
            RoleTag::System => Role::System,
            RoleTag::User => Role::User,
            RoleTag::Assistant => Role::Assistant,
            RoleTag::Tool => {
                return Err(DecodeError::UnsupportedRole { index: i });
            },
        };
        messages.push(Message { role, content: m.content.clone() });
        i = i + 1;
    }
    let c = Conversation { messages };
    assert(c@ =~= p.map_values(|x: (RoleTag, Seq<char>)| (role_of_tag(x.0).unwrap(), x.1)));
    Ok(c)
}

/// Decodes an inbound text frame into a conversation.
pub fn decode_conversation(text: &str) -> (r: Result<Conversation, DecodeError>)
    ensures
        decode_outcome(text@, result_view(r)),
        r matches Ok(c) ==> c.wf(),
{
    match parse_chat_json(text) {
        Ok(parsed) => check_messages(parsed),
        Err(_) => Err(DecodeError::Malformed),
    }
}

} // verus!
