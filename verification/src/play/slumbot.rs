//! The client side of the Slumbot HTTP interface: requests, replies, retries.
//!
//! JSON-over-POST with a session token; see [`crate::play::protocol`] for the
//! action-string format.  Transport errors are retried with backoff; protocol
//! errors (an `error_msg` in the reply) are surfaced to the caller.  Sending is
//! not done here: whoever sends reports what came back and is told what to do
//! next.

use vstd::prelude::*;
use vstd::string::*;

verus! {

/// A reply to `new_hand` or `act`.
#[derive(Debug, Clone, Default)]
pub struct HandResponse {
    pub old_action: Option<String>,
    pub action: Option<String>,
    pub client_pos: Option<u8>,
    pub hole_cards: Option<Vec<String>>,
    pub board: Option<Vec<String>>,
    /// Present exactly when the hand is over (chips, our perspective).
    pub winnings: Option<i64>,
    pub bot_hole_cards: Option<Vec<String>>,
    pub token: Option<String>,
    pub error_msg: Option<String>,
    pub session_num_hands: Option<u64>,
    pub session_total: Option<i64>,
    pub baseline_winnings: Option<i64>,
}

/// Times that a request is sent before giving up.
pub const MAX_ATTEMPTS: u32 = 4;

/// What came of sending a request once.
pub enum Reply {
    /// The request did not get through.
    Transport(String),
    /// An answer came but could not be read.
    Unreadable(String),
    /// An answer was read but is not the JSON expected: the parser's words, and
    /// the text.
    BadJson(String, String),
    /// An answer.
    Answer(HandResponse),
}

/// What to do after a reply.
pub enum PostStep {
    /// Wait this many seconds, then send again as attempt `attempt`.
    Retry { attempt: u32, delay_secs: u64 },
    /// The exchange is over.
    Finish(Result<HandResponse, String>),
}

/// Seconds to wait before attempt `attempt` (none before the first).
pub open spec fn delay_before(attempt: u32) -> u64 {
    if attempt == 0 {
        0
    } else {
        2u64 << (attempt as u64)
    }
}

/// The error text of a reply that calls for another attempt.
pub open spec fn failure_text(reply: Reply) -> Option<Seq<char>> {
    match reply {
        Reply::Transport(e) => Some("transport error: "@ + e@),
        Reply::Unreadable(e) => Some("read error: "@ + e@),
        Reply::BadJson(e, text) => Some("bad JSON ("@ + e@ + "): "@ + text@),
        Reply::Answer(_) => None,
    }
}

/// What a reply to attempt `attempt` (counted from 0) leads to: an answer ends
/// the exchange — as an error where the server reports one — and a failure is
/// tried again until the attempts are used up.
pub fn after_reply(attempt: u32, reply: Reply) -> (step: PostStep)
    requires
        attempt < MAX_ATTEMPTS,
    ensures
        match reply {
            Reply::Answer(response) => match response.error_msg {
                Some(msg) => step matches PostStep::Finish(Err(text)) && text@ == "server error: "@
                    + msg@,
                None => step == PostStep::Finish(Ok(response)),
            },
            _ => if attempt + 1 < MAX_ATTEMPTS {
                step == (PostStep::Retry {
                    attempt: (attempt + 1) as u32,
                    delay_secs: delay_before((attempt + 1) as u32),
                })
            } else {
                step matches PostStep::Finish(Err(text)) && Some(text@) == failure_text(reply)
            },
        },
{
    let text: String = match reply {
        Reply::Answer(response) => {
            match &response.error_msg {
                Some(msg) => {
                    let mut text: String = "server error: ".to_owned();
                    text.append(msg.as_str());
                    return PostStep::Finish(Err(text));
                },
                None => {},
            }
            return PostStep::Finish(Ok(response));
        },
        Reply::Transport(e) => {
            let mut text: String = "transport error: ".to_owned();
            text.append(e.as_str());
            text
        },
        Reply::Unreadable(e) => {
            let mut text: String = "read error: ".to_owned();
            text.append(e.as_str());
            text
        },
        Reply::BadJson(e, body) => {
            let mut text: String = "bad JSON (".to_owned();
            text.append(e.as_str());
            text.append("): ");
            text.append(body.as_str());
            text
        },
    };
    if attempt + 1 < MAX_ATTEMPTS {
        PostStep::Retry { attempt: attempt + 1, delay_secs: backoff(attempt + 1) }
    } else {
        PostStep::Finish(Err(text))
    }
}

/// Seconds to wait before attempt `attempt`: none, then 4, 8, 16.
pub fn backoff(attempt: u32) -> (secs: u64)
    requires
        attempt < MAX_ATTEMPTS,
    ensures
        secs == delay_before(attempt),
        secs == if attempt == 0 {
            0
        } else if attempt == 1 {
            4
        } else if attempt == 2 {
            8
        } else {
            16u64
        },
{
    assert(2u64 << 1u64 == 4) by (bit_vector);
    assert(2u64 << 2u64 == 8) by (bit_vector);
    assert(2u64 << 3u64 == 16) by (bit_vector);
    if attempt == 0 {
        0
    } else {
        2u64 << (attempt as u64)
    }
}

/// The session token out of the reply to a login.
pub fn login_token(response: HandResponse) -> (r: Result<String, String>)
    ensures
        match response.token {
            Some(token) => r == Ok::<String, String>(token),
            None => r matches Err(text) && text@ == "login response had no token"@,
        },
{
    match response.token {
        Some(token) => Ok(token),
        None => Err("login response had no token".to_owned()),
    }
}

/// The address of an endpoint under a base address.
pub fn endpoint_url(base: &str, endpoint: &str) -> (url: String)
    ensures
        url@ == base@ + "/"@ + endpoint@,
{
    let mut url: String = base.to_owned();
    url.append("/");
    url.append(endpoint);
    url
}

/// A member of a JSON object: a name and a string.
pub struct Field {
    pub name: String,
    pub value: String,
}

/// The members of an object as text.
pub open spec fn field_texts(fields: Seq<Field>) -> Seq<(Seq<char>, Seq<char>)> {
    Seq::new(fields.len(), |i: int| (fields[i].name@, fields[i].value@))
}

/// The compact JSON text of an object with these string members, as
/// `serde_json` writes it.
pub uninterp spec fn json_object_text(fields: Seq<(Seq<char>, Seq<char>)>) -> Seq<char>;

/// `serde_json::Value::to_string` on an object of strings.  Claimed: the text
/// depends on the members' names and values alone.
#[verifier::external_body]
fn json_object(fields: &[Field]) -> (text: String)
    ensures
        text@ == json_object_text(field_texts(fields@)),
{
    let mut object = serde_json::Map::new();
    for field in fields {
        object.insert(field.name.clone(), serde_json::Value::String(field.value.clone()));
    }
    serde_json::Value::Object(object).to_string()
}

/// The body of a `new_hand` request; there is no token on the very first one.
pub fn new_hand_body(token: Option<&str>) -> (body: String)
    ensures
        body@ == match token {
            Some(t) => json_object_text(seq![("token"@, t@)]),
            None => json_object_text(seq![]),
        },
{
    let mut fields: Vec<Field> = Vec::new();
    match token {
        Some(t) => {
            fields.push(Field { name: "token".to_owned(), value: t.to_owned() });
            assert(field_texts(fields@) =~= seq![("token"@, t@)]);
        },
        None => {
            assert(field_texts(fields@) =~= seq![]);
        },
    }
    json_object(fields.as_slice())
}

/// The body of an `act` request: our incremental action
/// (`"k" | "c" | "f" | "b<N>"`).
pub fn act_body(token: &str, incr: &str) -> (body: String)
    ensures
        body@ == json_object_text(seq![("token"@, token@), ("incr"@, incr@)]),
{
    let mut fields: Vec<Field> = Vec::new();
    fields.push(Field { name: "token".to_owned(), value: token.to_owned() });
    fields.push(Field { name: "incr".to_owned(), value: incr.to_owned() });
    assert(field_texts(fields@) =~= seq![("token"@, token@), ("incr"@, incr@)]);
    json_object(fields.as_slice())
}

/// The body of a `login` request.
pub fn login_body(username: &str, password: &str) -> (body: String)
    ensures
        body@ == json_object_text(seq![("username"@, username@), ("password"@, password@)]),
{
    let mut fields: Vec<Field> = Vec::new();
    fields.push(Field { name: "username".to_owned(), value: username.to_owned() });
    fields.push(Field { name: "password".to_owned(), value: password.to_owned() });
    assert(field_texts(fields@) =~= seq![("username"@, username@), ("password"@, password@)]);
    json_object(fields.as_slice())
}

/// Each failed attempt is told by what failed, with the words that came with it;
/// an answer is no failure.
pub proof fn law_failures_say_what_failed(reply: Reply)
    ensures
        match reply {
            Reply::Transport(e) => failure_text(reply) == Some("transport error: "@ + e@),
            Reply::Unreadable(e) => failure_text(reply) == Some("read error: "@ + e@),
            Reply::BadJson(e, text) => failure_text(reply) == Some(
                "bad JSON ("@ + e@ + "): "@ + text@,
            ),
            Reply::Answer(_) => failure_text(reply) is None,
        },
{
}

/// The wait doubles from attempt to attempt, from four seconds before the second
/// one; the first does not wait.
pub proof fn law_waits_double(attempt: u32)
    requires
        1 <= attempt < 3,
    ensures
        delay_before(0) == 0,
        delay_before(1) == 4,
        delay_before((attempt + 1) as u32) == 2 * delay_before(attempt),
{
    assert(2u64 << 1u64 == 4) by (bit_vector);
    assert(2u64 << 2u64 == 8) by (bit_vector);
    assert(2u64 << 3u64 == 16) by (bit_vector);
}

/// A request's members keep their names, values and order.
pub proof fn law_members_keep_their_names(fields: Seq<Field>, i: int)
    requires
        0 <= i < fields.len(),
    ensures
        field_texts(fields).len() == fields.len(),
        field_texts(fields)[i].0 == fields[i].name@,
        field_texts(fields)[i].1 == fields[i].value@,
{
}

} // verus!
