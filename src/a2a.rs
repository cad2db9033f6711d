//! The A2A protocol: its data types, the agent card served to clients, and
//! the shape of upstream answers.
use vstd::prelude::*;

use crate::checks::{content_type_essence, mime_essence};
use crate::json::{Json, str_eq};
use crate::rbac::{Identity, ResourceId, ResourceKind, RuleSets, sets_admit};
use crate::relay::{composed, compose_name};
use crate::text::{concat, decimal, decimal_string};

verus! {

/// A JSON object: its members in order.
pub type JsonObject = Vec<(String, Json)>;

/// A text that could not be turned into a value of an enumeration.
pub struct ConversionError {
    pub message: String,
}

/// The id of a JSON-RPC request.
pub enum NumberOrString {
    Number(u32),
    String(String),
}

pub struct AgentAuthentication {
    pub credentials: Option<String>,
    pub schemes: Vec<String>,
}

pub struct AgentCapabilities {
    pub push_notifications: bool,
    pub state_transition_history: bool,
    pub streaming: bool,
}

pub struct AgentProvider {
    pub organization: String,
    pub url: Option<String>,
}

pub struct AgentSkill {
    pub description: Option<String>,
    pub examples: Option<Vec<String>>,
    pub id: String,
    pub input_modes: Option<Vec<String>>,
    pub name: String,
    pub output_modes: Option<Vec<String>>,
    pub tags: Option<Vec<String>>,
}

/// What an agent says of itself at `/.well-known/agent.json`.
pub struct AgentCard {
    pub authentication: Option<AgentAuthentication>,
    pub capabilities: AgentCapabilities,
    pub default_input_modes: Vec<String>,
    pub default_output_modes: Vec<String>,
    pub description: Option<String>,
    pub documentation_url: Option<String>,
    pub name: String,
    pub provider: Option<AgentProvider>,
    pub skills: Vec<AgentSkill>,
    pub url: String,
    pub version: String,
}

pub struct AuthenticationInfo {
    pub credentials: Option<String>,
    pub schemes: Vec<String>,
}

pub struct TextPart {
    pub metadata: Option<JsonObject>,
    pub text: String,
    pub type_: String,
}

pub struct FileContent {
    pub bytes: Option<String>,
    pub mime_type: Option<String>,
    pub name: Option<String>,
    pub uri: Option<String>,
}

pub struct FilePart {
    pub file: FileContent,
    pub metadata: Option<JsonObject>,
    pub type_: String,
}

pub struct DataPart {
    pub data: JsonObject,
    pub metadata: Option<JsonObject>,
    pub type_: String,
}

pub enum Part {
    TextPart(TextPart),
    FilePart(FilePart),
    DataPart(DataPart),
}

pub struct Artifact {
    pub append: Option<bool>,
    pub description: Option<String>,
    pub index: i64,
    pub last_chunk: Option<bool>,
    pub metadata: Option<JsonObject>,
    pub name: Option<String>,
    pub parts: Vec<Part>,
}

pub enum Id {
    Variant0(i64),
    Variant1(String),
    Variant2,
}

pub struct InternalError {
    pub code: i64,
    pub data: Option<Json>,
    pub message: String,
}

pub struct InvalidParamsError {
    pub code: i64,
    pub data: Option<Json>,
    pub message: String,
}

pub struct InvalidRequestError {
    pub code: i64,
    pub data: Option<Json>,
    pub message: String,
}

pub struct MethodNotFoundError {
    pub code: i64,
    pub data: Json,
    pub message: String,
}

pub struct PushNotificationNotSupportedError {
    pub code: i64,
    pub data: Json,
    pub message: String,
}

pub struct TaskNotCancelableError {
    pub code: i64,
    pub data: Json,
    pub message: String,
}

pub struct TaskNotFoundError {
    pub code: i64,
    pub data: Json,
    pub message: String,
}

pub struct UnsupportedOperationError {
    pub code: i64,
    pub data: Json,
    pub message: String,
}

#[derive(Debug, Clone, Copy, PartialEq, Eq, Structural)]
pub enum Role {
    User,
    Agent,
}

pub struct Message {
    pub metadata: Option<JsonObject>,
    pub parts: Vec<Part>,
    pub role: Role,
}

pub struct PushNotificationConfig {
    pub authentication: Option<AuthenticationInfo>,
    pub token: Option<String>,
    pub url: String,
}

pub struct TaskPushNotificationConfig {
    pub id: String,
    pub push_notification_config: PushNotificationConfig,
}

pub struct TaskArtifactUpdateEvent {
    pub artifact: Artifact,
    pub id: String,
    pub metadata: Option<JsonObject>,
}

pub struct TaskIdParams {
    pub id: String,
    pub metadata: Option<JsonObject>,
}

pub struct TaskQueryParams {
    pub history_length: Option<i64>,
    pub id: String,
    pub metadata: Option<JsonObject>,
}

pub struct TaskSendParams {
    pub history_length: Option<i64>,
    pub id: String,
    pub message: Message,
    pub metadata: Option<JsonObject>,
    pub push_notification: Option<PushNotificationConfig>,
    pub session_id: Option<String>,
}

#[derive(Debug, Clone, Copy, PartialEq, Eq, Structural)]
pub enum TaskState {
    Submitted,
    Working,
    InputRequired,
    Completed,
    Canceled,
    Failed,
    Unknown,
}

impl Role {
    pub open spec fn text(self) -> Seq<char> {
        match self {
            Role::User => "user"@,
            Role::Agent => "agent"@,
        }
    }

    /// The name of the role on the wire.
    pub fn to_string(&self) -> (r: String)
        ensures
            r@ == self.text(),
    {
        match self {
            Role::User => "user".to_string(),
            Role::Agent => "agent".to_string(),
        }
    }

    /// The role named by a text.
    pub fn from_str(value: &str) -> (r: Result<Role, ConversionError>)
        ensures
            match r {
                Ok(role) => role.text() == value@,
                Err(_) => value@ != "user"@ && value@ != "agent"@,
            },
    {
        if str_eq(value, "user") {
            Ok(Role::User)
        } else if str_eq(value, "agent") {
            Ok(Role::Agent)
        } else {
            Err(ConversionError { message: "invalid value".to_string() })
        }
    }
}

impl TaskState {
    pub open spec fn text(self) -> Seq<char> {
        match self {
            TaskState::Submitted => "submitted"@,
            TaskState::Working => "working"@,
            TaskState::InputRequired => "input-required"@,
            TaskState::Completed => "completed"@,
            TaskState::Canceled => "canceled"@,
            TaskState::Failed => "failed"@,
            TaskState::Unknown => "unknown"@,
        }
    }

    /// The name of the state on the wire.
    pub fn to_string(&self) -> (r: String)
        ensures
            r@ == self.text(),
    {
        match self {
            TaskState::Submitted => "submitted".to_string(),
            TaskState::Working => "working".to_string(),
            TaskState::InputRequired => "input-required".to_string(),
            TaskState::Completed => "completed".to_string(),
            TaskState::Canceled => "canceled".to_string(),
            TaskState::Failed => "failed".to_string(),
            TaskState::Unknown => "unknown".to_string(),
        }
    }

    /// The state named by a text.
    pub fn from_str(value: &str) -> (r: Result<TaskState, ConversionError>)
        ensures
            match r {
                Ok(s) => s.text() == value@,
                Err(_) => forall|s: TaskState| s.text() != value@,
            },
    {
        if str_eq(value, "submitted") {
            Ok(TaskState::Submitted)
        } else if str_eq(value, "working") {
            Ok(TaskState::Working)
        } else if str_eq(value, "input-required") {
            Ok(TaskState::InputRequired)
        } else if str_eq(value, "completed") {
            Ok(TaskState::Completed)
        } else if str_eq(value, "canceled") {
            Ok(TaskState::Canceled)
        } else if str_eq(value, "failed") {
            Ok(TaskState::Failed)
        } else if str_eq(value, "unknown") {
            Ok(TaskState::Unknown)
        } else {
            Err(ConversionError { message: "invalid value".to_string() })
        }
    }
}

/// The input modes of a card that names none.
pub fn agent_card_default_input_modes() -> (r: Vec<String>)
    ensures
        r@.len() == 1 && r@[0]@ == "text"@,
{
    let mut v = Vec::new();
    v.push("text".to_string());
    v
}

/// The output modes of a card that names none.
pub fn agent_card_default_output_modes() -> (r: Vec<String>)
    ensures
        r@.len() == 1 && r@[0]@ == "text"@,
{
    let mut v = Vec::new();
    v.push("text".to_string());
    v
}

/// The `type` of a data part.
pub fn data_part_type() -> (r: String)
    ensures
        r@ == "data"@,
{
    "data".to_string()
}

/// The `type` of a file part.
pub fn file_part_type() -> (r: String)
    ensures
        r@ == "file"@,
{
    "file".to_string()
}

/// The `type` of a text part.
pub fn text_part_type() -> (r: String)
    ensures
        r@ == "text"@,
{
    "text".to_string()
}

// ----- serving agent cards -----

/// Where an upstream agent publishes its card.
pub fn agent_card_url(base: &str) -> (r: String)
    ensures
        r@ == base@ + ".well-known/agent.json"@,
{
    concat(base, ".well-known/agent.json")
}

/// Whether the caller may see a skill of the agent `service`: the skill's
/// name, composed with the service, is checked as a tool.
pub open spec fn skill_visible(global: RuleSets, who: Identity, service: Seq<char>, skill: AgentSkill) -> bool {
    sets_admit(global.sets@, ResourceKind::Tool, composed(service, skill.name@), who)
}

/// The card served to a caller: the URL points at this gateway's route for
/// the service, and only the skills that the caller may use are kept, in
/// their order.
pub fn rewrite_agent_card(
    card: AgentCard,
    public_url: &str,
    service: &str,
    global: &RuleSets,
    who: &Identity,
) -> (r: AgentCard)
    ensures
        r.url@ == public_url@ + "/"@ + service@,
        r.name == card.name,
        r.version == card.version,
        r.authentication == card.authentication,
        r.capabilities == card.capabilities,
        r.default_input_modes == card.default_input_modes,
        r.default_output_modes == card.default_output_modes,
        r.description == card.description,
        r.documentation_url == card.documentation_url,
        r.provider == card.provider,
        r.skills@ == card.skills@.filter(|s: AgentSkill| skill_visible(*global, *who, service@, s)),
{
    let AgentCard {
        authentication,
        capabilities,
        default_input_modes,
        default_output_modes,
        description,
        documentation_url,
        name,
        provider,
        skills,
        url: _,
        version,
    } = card;
    let ghost all = skills@;
    let mut rest = skills;
    let mut kept: Vec<AgentSkill> = Vec::new();
    assert(all.subrange(0, 0).filter(|s: AgentSkill| skill_visible(*global, *who, service@, s)) =~= Seq::<AgentSkill>::empty());
    assert(all.subrange(0, all.len() as int) =~= all);
    while rest.len() > 0
        invariant
            rest@ == all.subrange(all.len() - rest@.len(), all.len() as int),
            rest@.len() <= all.len(),
            kept@ == all.subrange(0, all.len() - rest@.len()).filter(
                |s: AgentSkill| skill_visible(*global, *who, service@, s),
            ),
        decreases rest@.len(),
    {
        let ghost k = all.len() - rest@.len();
        let ghost before = rest@;
        let skill = rest.remove(0);
        assert(skill == all[k]);
        assert(rest@ =~= all.subrange(all.len() - rest@.len(), all.len() as int));
        let id = compose_name(service, skill.name.as_str());
        let res = ResourceId { kind: ResourceKind::Tool, id };
        let visible = global.validate(&res, who);
        proof {
            let pre = all.subrange(0, k + 1);
            assert(pre.drop_last() =~= all.subrange(0, k));
            assert(pre.last() == skill);
        }
        if visible {
            kept.push(skill);
        }
        proof {
            let pre = all.subrange(0, k + 1);
            reveal(Seq::filter);
            assert(pre.filter(|s: AgentSkill| skill_visible(*global, *who, service@, s)) == all.subrange(0, k).filter(|s: AgentSkill| skill_visible(*global, *who, service@, s)) + if skill_visible(*global, *who, service@, skill) { seq![skill] } else { Seq::empty() }) by {
                assert(pre.drop_last() =~= all.subrange(0, k));
            }
            if visible {
                assert(kept@ =~= all.subrange(0, k).filter(|s: AgentSkill| skill_visible(*global, *who, service@, s)).push(skill));
            }
        }
    }
    let with_slash = concat(public_url, "/");
    let url = concat(with_slash.as_str(), service);
    AgentCard {
        authentication,
        capabilities,
        default_input_modes,
        default_output_modes,
        description,
        documentation_url,
        name,
        provider,
        skills: kept,
        url,
        version,
    }
}

// ----- upstream answers -----

/// The two shapes of an upstream's answer to a JSON-RPC request.
#[derive(Debug, Clone, Copy, PartialEq, Eq, Structural)]
pub enum ResponseShape {
    /// One JSON-RPC message (`application/json`).
    Single,
    /// A stream of server-sent events (`text/event-stream`).
    Stream,
}

/// The shape an answer has by its `Content-Type`; an absent or other type is
/// refused.
pub open spec fn shape_spec(content_type: Option<Seq<char>>) -> Option<ResponseShape> {
    match content_type {
        None => None,
        Some(v) => match mime_essence(v) {
            Some(e) => if e == "application/json"@ {
                Some(ResponseShape::Single)
            } else if e == "text/event-stream"@ {
                Some(ResponseShape::Stream)
            } else {
                None
            },
            None => None,
        },
    }
}

/// Classifies an upstream answer by its `Content-Type` header.
pub fn classify_response(content_type: Option<&str>) -> (r: Option<ResponseShape>)
    ensures
        r == shape_spec(
            match content_type {
                Some(v) => Some(v@),
                None => None,
            },
        ),
{
    match content_type {
        None => None,
        Some(v) => match content_type_essence(v) {
            Some(e) => {
                if str_eq(e.as_str(), "application/json") {
                    Some(ResponseShape::Single)
                } else if str_eq(e.as_str(), "text/event-stream") {
                    Some(ResponseShape::Stream)
                } else {
                    None
                }
            },
            None => None,
        },
    }
}

/// The number of messages that the stream bridge buffers before the
/// upstream reader waits.
pub const STREAM_CAPACITY: usize = 64;

/// Whether a server-sent event is passed on: only `message` events are;
/// the others are skipped and the stream goes on.
pub fn forward_event(event: &str) -> (r: bool)
    ensures
        r == (event@ == "message"@),
{
    str_eq(event, "message")
}

/// The URL of an A2A upstream: `https` on port 443, else `http`.
pub fn upstream_url(host: &str, port: u32, path: &str) -> (r: String)
    ensures
        r@ == (if port == 443 {
            "https"@
        } else {
            "http"@
        }) + "://"@ + host@ + ":"@ + decimal(port as nat) + path@,
{
    let scheme = if port == 443 {
        "https"
    } else {
        "http"
    };
    let mut s = concat(scheme, "://");
    s.append(host);
    s.append(":");
    let p = decimal_string(port);
    s.append(p.as_str());
    s.append(path);
    s
}

/// The headers sent with every upstream request: the target's own headers,
/// then `Authorization: Bearer <token>` where a token was obtained.
pub fn default_headers(headers: &Vec<(String, String)>, token: Option<&str>) -> (r: Vec<(String, String)>)
    ensures
        r@.len() == headers@.len() + if token is Some { 1int } else { 0int },
        forall|i: int| 0 <= i < headers@.len() ==> r@[i] == headers@[i],
        match token {
            Some(t) => r@[headers@.len() as int].0@ == "Authorization"@ && r@[headers@.len() as int].1@
                == "Bearer "@ + t@,
            None => true,
        },
{
    let mut out: Vec<(String, String)> = Vec::new();
    let mut i: usize = 0;
    while i < headers.len()
        invariant
            i <= headers@.len(),
            out@.len() == i,
            forall|k: int| 0 <= k < i ==> out@[k] == headers@[k],
        decreases headers@.len() - i,
    {
        out.push((headers[i].0.clone(), headers[i].1.clone()));
        i = i + 1;
    }
    match token {
        Some(t) => {
            out.push(("Authorization".to_string(), concat("Bearer ", t)));
        },
        None => {},
    }
    out
}

} // verus!
