//! The verbs that agents can call: their arguments, the registry of each role, and what a call
//! comes back with.
use crate::agent::Role;
use crate::board::{BoardRejection, Refusal};
use crate::directive::DirectiveKind;
use crate::json::{fields_view, find_key, key_at, lemma_fields, json_quote, quote, Json, JsonView};
use crate::text::{debug_quote, debug_quoted, same};
use vstd::prelude::*;

verus! {

/// What a call comes back with.
#[derive(Debug)]
#[allow(inconsistent_fields)]
pub enum ToolOutcome {
    /// The call was carried out.
    Accepted {
        /// What it gave.
        result: Json,
    },
    /// The call was well formed, and the domain refused it.
    Rejected {
        /// The domain code.
        code: String,
        /// The message for people.
        message: String,
        /// More, if there is any.
        details: Option<Json>,
    },
    /// The call names no verb of the registry or its arguments do not fit.
    Invalid {
        /// The code.
        code: String,
        /// The message for people.
        message: String,
    },
}

/// An outcome in specifications.
#[allow(inconsistent_fields)]
pub enum OutcomeView {
    /// Carried out.
    Accepted { result: JsonView },
    /// Refused.
    Rejected { code: Seq<char>, message: Seq<char>, details: Option<JsonView> },
    /// Malformed.
    Invalid { code: Seq<char>, message: Seq<char> },
}

impl View for ToolOutcome {
    type V = OutcomeView;

    open spec fn view(&self) -> OutcomeView {
        match self {
            ToolOutcome::Accepted { result } => OutcomeView::Accepted { result: result@ },
            ToolOutcome::Rejected { code, message, details } => OutcomeView::Rejected {
                code: code@,
                message: message@,
                details: match details {
                    Some(d) => Some(d@),
                    None => None,
                },
            },
            ToolOutcome::Invalid { code, message } => OutcomeView::Invalid {
                code: code@,
                message: message@,
            },
        }
    }
}

impl OutcomeView {
    /// A refusal without details.
    pub open spec fn refusal(no: Refusal) -> OutcomeView {
        OutcomeView::Rejected { code: no.code, message: no.message, details: None }
    }

    /// A refusal with the given code and message.
    pub open spec fn rejected(code: Seq<char>, message: Seq<char>) -> OutcomeView {
        OutcomeView::Rejected { code, message, details: None }
    }

    /// The outcome in one word.
    pub open spec fn word(self) -> Seq<char> {
        match self {
            OutcomeView::Accepted { .. } => "ok"@,
            OutcomeView::Rejected { .. } => "rejected"@,
            OutcomeView::Invalid { .. } => "invalid"@,
        }
    }

    /// The outcome as the content of a tool reply.
    pub open spec fn content(self) -> Seq<char> {
        match self {
            OutcomeView::Accepted { result } => "{\"status\":\"ok\",\"result\":"@ + result.text() + "}"@,
            OutcomeView::Rejected { code, message, details } => {
                let head = "{\"status\":\"rejected\",\"code\":"@ + json_quote(code)
                    + ",\"message\":"@ + json_quote(message);
                match details {
                    Some(d) => head + ",\"details\":"@ + d.text() + "}"@,
                    None => head + "}"@,
                }
            },
            OutcomeView::Invalid { code, message } => "{\"status\":\"invalid\",\"code\":"@
                + json_quote(code) + ",\"message\":"@ + json_quote(message) + "}"@,
        }
    }
}

impl ToolOutcome {
    /// A call that was carried out.
    pub fn ok(result: Json) -> (r: ToolOutcome)
        ensures
            r@ == (OutcomeView::Accepted { result: result@ }),
    {
        ToolOutcome::Accepted { result }
    }

    /// A call that was refused.
    pub fn rejected(code: &str, message: String) -> (r: ToolOutcome)
        ensures
            r@ == OutcomeView::rejected(code@, message@),
    {
        ToolOutcome::Rejected { code: code.to_owned(), message, details: None }
    }

    /// A call that the board refused.
    pub fn from_rejection(rejection: BoardRejection) -> (r: ToolOutcome)
        ensures
            r@ == OutcomeView::refusal(rejection@),
    {
        ToolOutcome::Rejected {
            code: rejection.code.to_owned(),
            message: rejection.message,
            details: None,
        }
    }

    /// A call of something that is no verb of the registry.
    pub fn unknown_verb(name: &str) -> (r: ToolOutcome)
        ensures
            r@ == unknown_verb_view(name@),
    {
        let mut message = "no verb named ".to_owned();
        message.push_str(debug_quoted(name).as_str());
        message.push_str(" in this registry");
        ToolOutcome::Invalid { code: "unknown_verb".to_owned(), message }
    }

    /// A call whose arguments do not fit.
    pub fn invalid_arguments(message: String) -> (r: ToolOutcome)
        ensures
            r@ == (OutcomeView::Invalid { code: "invalid_arguments"@, message: message@ }),
    {
        ToolOutcome::Invalid { code: "invalid_arguments".to_owned(), message }
    }

    /// The outcome in one word.
    pub fn word(&self) -> (s: &'static str)
        ensures
            s@ == self@.word(),
    {
        match self {
            ToolOutcome::Accepted { .. } => "ok",
            ToolOutcome::Rejected { .. } => "rejected",
            ToolOutcome::Invalid { .. } => "invalid",
        }
    }

    /// Whether the call was malformed.
    pub fn is_invalid(&self) -> (b: bool)
        ensures
            b == (self@ is Invalid),
    {
        matches!(self, ToolOutcome::Invalid { .. })
    }

    /// The outcome as the content of a tool reply.
    pub fn to_content(&self) -> (s: String)
        ensures
            s@ == self@.content(),
    {
        match self {
            ToolOutcome::Accepted { result } => {
                let mut s = "{\"status\":\"ok\",\"result\":".to_owned();
                s.push_str(result.render().as_str());
                s.push_str("}");
                s
            },
            ToolOutcome::Rejected { code, message, details } => {
                let mut s = "{\"status\":\"rejected\",\"code\":".to_owned();
                s.push_str(quote(code.as_str()).as_str());
                s.push_str(",\"message\":");
                s.push_str(quote(message.as_str()).as_str());
                if let Some(d) = details {
                    s.push_str(",\"details\":");
                    s.push_str(d.render().as_str());
                }
                s.push_str("}");
                s
            },
            ToolOutcome::Invalid { code, message } => {
                let mut s = "{\"status\":\"invalid\",\"code\":".to_owned();
                s.push_str(quote(code.as_str()).as_str());
                s.push_str(",\"message\":");
                s.push_str(quote(message.as_str()).as_str());
                s.push_str("}");
                s
            },
        }
    }
}

/// What a call of an unknown verb comes back with.
pub open spec fn unknown_verb_view(name: Seq<char>) -> OutcomeView {
    OutcomeView::Invalid {
        code: "unknown_verb"@,
        message: "no verb named "@ + debug_quote(name) + " in this registry"@,
    }
}

// ---------------------------------------------------------------------------
// Arguments.
// ---------------------------------------------------------------------------

/// Arguments of `claim_task`.
#[derive(Debug)]
pub struct ClaimTaskArgs {
    /// The task to claim.
    pub task: u64,
}

/// Arguments of `complete_task`.
#[derive(Debug)]
pub struct CompleteTaskArgs {
    /// The result.
    pub result: String,
}

/// Arguments of `release_task`.
#[derive(Debug)]
pub struct ReleaseTaskArgs {
    /// Why.
    pub reason: Option<String>,
}

/// Arguments of `post_message`.
#[derive(Debug)]
pub struct PostMessageArgs {
    /// One agent's handle.
    pub to: Option<String>,
    /// A team's tag.
    pub team: Option<String>,
    /// Everyone.
    pub broadcast: Option<bool>,
    /// What it says.
    pub body: String,
}

/// Arguments of `write_knowledge`.
#[derive(Debug)]
pub struct WriteKnowledgeArgs {
    /// The note.
    pub text: String,
}

/// Arguments of `search_knowledge`.
#[derive(Debug)]
pub struct SearchKnowledgeArgs {
    /// What to look for.
    pub query: String,
    /// How many hits.
    pub k: Option<u32>,
}

/// Arguments of `sleep`: none.
#[derive(Debug)]
pub struct SleepArgs {}

/// Arguments of `create_task`.
#[derive(Debug)]
pub struct CreateTaskArgs {
    /// The title.
    pub title: String,
    /// What is to be done.
    pub description: String,
    /// The tag.
    pub team: Option<String>,
}

/// Arguments of `cancel_task`.
#[derive(Debug)]
pub struct CancelTaskArgs {
    /// The task.
    pub task: u64,
    /// Why.
    pub reason: String,
}

/// Arguments of `unassign_task`.
#[derive(Debug)]
pub struct UnassignTaskArgs {
    /// The task.
    pub task: u64,
    /// Why.
    pub reason: Option<String>,
    /// The directive that this fulfils.
    pub in_response_to: Option<u64>,
}

/// Arguments of `form_team`.
#[derive(Debug)]
pub struct FormTeamArgs {
    /// The tag.
    pub team: String,
    /// The members' handles.
    pub members: Vec<String>,
}

/// Arguments of `dissolve_team`.
#[derive(Debug)]
pub struct DissolveTeamArgs {
    /// The tag.
    pub team: String,
}

/// Arguments of `set_team_members`.
#[derive(Debug)]
pub struct SetTeamMembersArgs {
    /// The tag.
    pub team: String,
    /// The members' handles.
    pub members: Vec<String>,
    /// The directive that this fulfils.
    pub in_response_to: Option<u64>,
}

/// A specialty as the orchestrator authors it.
#[derive(Debug)]
pub struct SpecialtyArgs {
    /// The slug.
    pub name: String,
    /// What the specialist is.
    pub description: String,
    /// What the specialist does.
    pub focus: String,
}

/// Arguments of `respecialize`.
#[derive(Debug)]
pub struct RespecializeArgs {
    /// The agent's handle.
    pub agent: String,
    /// The specialty.
    pub specialty: SpecialtyArgs,
    /// The directive that this fulfils.
    pub in_response_to: Option<u64>,
}

/// Arguments of `sleep_agent`.
#[derive(Debug)]
pub struct SleepAgentArgs {
    /// The agent's handle.
    pub agent: String,
}

/// Arguments of `wake_agent`.
#[derive(Debug)]
pub struct WakeAgentArgs {
    /// The agent's handle.
    pub agent: String,
}

/// Arguments of `decline_directive`.
#[derive(Debug)]
pub struct DeclineDirectiveArgs {
    /// The directive.
    pub directive: u64,
    /// Why.
    pub reason: String,
}

/// Arguments of `finish_run`.
#[derive(Debug)]
pub struct FinishRunArgs {
    /// The report.
    pub report: String,
}

/// Arguments of `set_parallelism`.
#[derive(Debug)]
pub struct SetParallelismArgs {
    /// How many team agents should work at once.
    pub target: u32,
}

/// Arguments of `propose_respecialize`.
#[derive(Debug)]
pub struct ProposeRespecializeArgs {
    /// The agent's handle.
    pub agent: String,
    /// The proposed slug.
    pub specialty: String,
}

/// Arguments of `propose_reallocate`.
#[derive(Debug)]
pub struct ProposeReallocateArgs {
    /// The task.
    pub task: u64,
    /// Why.
    pub reason: String,
}

/// Arguments of `propose_rebalance`.
#[derive(Debug)]
pub struct ProposeRebalanceArgs {
    /// The tag.
    pub team: String,
    /// The members' handles.
    pub members: Vec<String>,
}

/// A call's arguments, decoded for its verb.
#[derive(Debug)]
pub enum VerbArgs {
    /// `claim_task`
    ClaimTask(ClaimTaskArgs),
    /// `complete_task`
    CompleteTask(CompleteTaskArgs),
    /// `release_task`
    ReleaseTask(ReleaseTaskArgs),
    /// `post_message`
    PostMessage(PostMessageArgs),
    /// `write_knowledge`
    WriteKnowledge(WriteKnowledgeArgs),
    /// `search_knowledge`
    SearchKnowledge(SearchKnowledgeArgs),
    /// `sleep`
    Sleep(SleepArgs),
    /// `create_task`
    CreateTask(CreateTaskArgs),
    /// `cancel_task`
    CancelTask(CancelTaskArgs),
    /// `unassign_task`
    UnassignTask(UnassignTaskArgs),
    /// `form_team`
    FormTeam(FormTeamArgs),
    /// `dissolve_team`
    DissolveTeam(DissolveTeamArgs),
    /// `set_team_members`
    SetTeamMembers(SetTeamMembersArgs),
    /// `respecialize`
    Respecialize(RespecializeArgs),
    /// `sleep_agent`
    SleepAgent(SleepAgentArgs),
    /// `wake_agent`
    WakeAgent(WakeAgentArgs),
    /// `decline_directive`
    DeclineDirective(DeclineDirectiveArgs),
    /// `finish_run`
    FinishRun(FinishRunArgs),
    /// `set_parallelism`
    SetParallelism(SetParallelismArgs),
    /// One of the three proposals, with the arguments as they were sent.
    Propose(DirectiveKind, String),
}

impl VerbArgs {
    /// The verb that the arguments are for.
    pub open spec fn verb(self) -> Seq<char> {
        match self {
            VerbArgs::ClaimTask(_) => "claim_task"@,
            VerbArgs::CompleteTask(_) => "complete_task"@,
            VerbArgs::ReleaseTask(_) => "release_task"@,
            VerbArgs::PostMessage(_) => "post_message"@,
            VerbArgs::WriteKnowledge(_) => "write_knowledge"@,
            VerbArgs::SearchKnowledge(_) => "search_knowledge"@,
            VerbArgs::Sleep(_) => "sleep"@,
            VerbArgs::CreateTask(_) => "create_task"@,
            VerbArgs::CancelTask(_) => "cancel_task"@,
            VerbArgs::UnassignTask(_) => "unassign_task"@,
            VerbArgs::FormTeam(_) => "form_team"@,
            VerbArgs::DissolveTeam(_) => "dissolve_team"@,
            VerbArgs::SetTeamMembers(_) => "set_team_members"@,
            VerbArgs::Respecialize(_) => "respecialize"@,
            VerbArgs::SleepAgent(_) => "sleep_agent"@,
            VerbArgs::WakeAgent(_) => "wake_agent"@,
            VerbArgs::DeclineDirective(_) => "decline_directive"@,
            VerbArgs::FinishRun(_) => "finish_run"@,
            VerbArgs::SetParallelism(_) => "set_parallelism"@,
            VerbArgs::Propose(kind, _) => kind.name(),
        }
    }
}

// ---------------------------------------------------------------------------
// The registry.
// ---------------------------------------------------------------------------

/// A verb as a request offers it.
#[derive(Debug)]
pub struct ToolDef {
    /// The verb.
    pub name: String,
    /// What it does.
    pub description: String,
    /// The JSON Schema of its arguments.
    pub parameters: Option<Json>,
    /// Whether the model must keep to the schema.
    pub strict: bool,
}

/// A verb as a request offers it, in specifications.
pub struct ToolView {
    /// The verb.
    pub name: Seq<char>,
    /// What it does.
    pub description: Seq<char>,
    /// The JSON Schema of its arguments.
    pub parameters: Option<JsonView>,
    /// Whether the model must keep to the schema.
    pub strict: bool,
}

impl View for ToolDef {
    type V = ToolView;

    open spec fn view(&self) -> ToolView {
        ToolView {
            name: self.name@,
            description: self.description@,
            parameters: match self.parameters {
                Some(p) => Some(p@),
                None => None,
            },
            strict: self.strict,
        }
    }
}

/// A verb without a schema.
pub open spec fn bare_tool(name: Seq<char>, description: Seq<char>) -> ToolView {
    ToolView { name, description, parameters: None, strict: false }
}

/// The verbs of a role, in the order in which requests offer them.
pub open spec fn catalogue(role: Role) -> Seq<ToolView> {
    let post = bare_tool(
        "post_message"@,
        "Send a realtime message: exactly one of `to` (direct to an agent), `team` (a live team), or `broadcast: true`."@,
    );
    let write = bare_tool(
        "write_knowledge"@,
        "Record a Note into the shared knowledge store — no delivery; discoverable by later search."@,
    );
    let search = bare_tool(
        "search_knowledge"@,
        "Top-k cosine search of the shared knowledge store."@,
    );
    match role {
        Role::TeamAgent => Seq::empty().push(
            bare_tool(
                "claim_task"@,
                "Take exclusive ownership of an Open task your team is eligible for. First claim wins; a lost race returns a rejected outcome."@,
            ),
        ).push(
            bare_tool(
                "complete_task"@,
                "Mark your claimed task Done and record its result into the knowledge store."@,
            ),
        ).push(
            bare_tool(
                "release_task"@,
                "Return your claimed task to Open, optionally with a reason."@,
            ),
        ).push(post).push(write).push(search).push(
            bare_tool("sleep"@, "Go Asleep from Idle until explicitly woken."@),
        ),
        Role::Orchestrator => Seq::empty().push(
            bare_tool(
                "create_task"@,
                "Author a new Open task on the board, optionally tagged to a team for claim-eligibility."@,
            ),
        ).push(
            bare_tool(
                "cancel_task"@,
                "Cancel an Open task with a reason so the run can converge deliberately."@,
            ),
        ).push(
            bare_tool(
                "unassign_task"@,
                "Forcibly return a Claimed task to Open — the reallocation and pre-respecialization move. Cite a directive with in_response_to to fulfill it."@,
            ),
        ).push(
            bare_tool(
                "form_team"@,
                "Form a team over pool agents: a routable message scope plus a task claim-eligibility scope."@,
            ),
        ).push(
            bare_tool(
                "dissolve_team"@,
                "Dissolve a team, releasing both scopes. Rejected while live team-tagged tasks remain."@,
            ),
        ).push(
            bare_tool(
                "set_team_members"@,
                "Declaratively replace a team's member set. Cite a directive with in_response_to to fulfill it."@,
            ),
        ).push(
            bare_tool(
                "respecialize"@,
                "Swap an Idle agent's specialty and system prompt, wiping its recent-activity window; identity preserved. Cite a directive with in_response_to to fulfill it."@,
            ),
        ).push(bare_tool("sleep_agent"@, "Put an Idle team agent to sleep."@)).push(
            bare_tool(
                "wake_agent"@,
                "Wake a sleeping or parked agent; restores Working with its still-claimed task, else Idle."@,
            ),
        ).push(
            bare_tool(
                "decline_directive"@,
                "Decline a pending judgment directive with a logged reason."@,
            ),
        ).push(post).push(write).push(search).push(
            bare_tool(
                "finish_run"@,
                "End the run. Rejected (enumerating blockers) if any task is Open or Claimed."@,
            ),
        ),
        Role::MetaAgent => Seq::empty().push(
            bare_tool(
                "set_parallelism"@,
                "Mechanical directive: retune the effective team-agent permit count within [1, --parallel]. Applied by the runtime."@,
            ),
        ).push(
            bare_tool(
                "sleep_agent"@,
                "Mechanical directive: put an Idle team agent to sleep. Applied by the runtime."@,
            ),
        ).push(
            bare_tool(
                "wake_agent"@,
                "Mechanical directive: wake a sleeping or parked agent. Applied by the runtime."@,
            ),
        ).push(
            bare_tool(
                "propose_respecialize"@,
                "Judgment directive: propose the orchestrator respecialize an agent. Returns a directive id."@,
            ),
        ).push(
            bare_tool(
                "propose_reallocate"@,
                "Judgment directive: propose the orchestrator unassign and reallocate a claimed task. Returns a directive id."@,
            ),
        ).push(
            bare_tool(
                "propose_rebalance"@,
                "Judgment directive: propose the orchestrator rebalance a team's member set. Returns a directive id."@,
            ),
        ),
    }
}

/// Verbs in specifications.
pub open spec fn tool_views(v: Seq<ToolDef>) -> Seq<ToolView> {
    Seq::new(v.len(), |i: int| v[i]@)
}

/// A verb is among the given ones.
pub open spec fn offers(tools: Seq<ToolView>, name: Seq<char>) -> bool {
    exists|i: int| 0 <= i < tools.len() && (#[trigger] tools[i]).name == name
}

/// Adds a verb without a schema.
fn push_tool(tools: &mut Vec<ToolDef>, name: &str, description: &str)
    ensures
        tool_views(final(tools)@) == tool_views(old(tools)@).push(
            bare_tool(name@, description@),
        ),
{
    tools.push(
        ToolDef {
            name: name.to_owned(),
            description: description.to_owned(),
            parameters: None,
            strict: false,
        },
    );
    assert(tool_views(tools@) =~= tool_views(old(tools)@).push(bare_tool(name@, description@)));
}

/// A schema without the keys that only document generators want.
pub open spec fn trimmed_fields(fields: Seq<(Seq<char>, JsonView)>) -> Seq<(Seq<char>, JsonView)>
    decreases fields.len(),
{
    if fields.len() == 0 {
        Seq::empty()
    } else if fields.last().0 == "$schema"@ || fields.last().0 == "title"@ {
        trimmed_fields(fields.drop_last())
    } else {
        trimmed_fields(fields.drop_last()).push(fields.last())
    }
}

/// A schema as requests carry it.
pub open spec fn trimmed_schema(schema: JsonView) -> JsonView {
    match schema {
        JsonView::Object(fields) => JsonView::Object(trimmed_fields(fields)),
        other => other,
    }
}

/// Takes the top-level keys `$schema` and `title` off a schema.
pub fn trim_schema(schema: &Json) -> (r: Json)
    ensures
        r@ == trimmed_schema(schema@),
{
    match schema {
        Json::Object(fields) => {
            let mut kept: Vec<(String, Json)> = Vec::new();
            let mut i: usize = 0;
            assert(fields@.take(0) =~= Seq::<(String, Json)>::empty());
            while i < fields.len()
                invariant
                    0 <= i <= fields.len(),
                    crate::json::fields_view(kept@) == trimmed_fields(
                        crate::json::fields_view(fields@.take(i as int)),
                    ),
                decreases fields.len() - i,
            {
                assert(fields@.take(i + 1).drop_last() =~= fields@.take(i as int));
                assert(crate::json::fields_view(fields@.take(i + 1)).drop_last()
                    =~= crate::json::fields_view(fields@.take(i as int)));
                if !same(fields[i].0.as_str(), "$schema") && !same(fields[i].0.as_str(), "title") {
                    let ghost before = kept@;
                    kept.push((fields[i].0.clone(), fields[i].1.clone()));
                    assert(kept@.drop_last() =~= before);
                }
                i = i + 1;
            }
            assert(fields@.take(i as int) =~= fields@);
            Json::object(kept)
        },
        other => other.clone(),
    }
}

/// The verbs of each role.
#[derive(Debug)]
pub struct ToolRegistry {
    team: Vec<ToolDef>,
    orchestrator: Vec<ToolDef>,
    meta: Vec<ToolDef>,
}

/// A schema of an object that denies unknown fields.
pub open spec fn denies_strays(schema: JsonView) -> bool {
    schema is Object && schema.get("additionalProperties"@) == Some(JsonView::Bool(false))
}

/// The schema of a verb among given ones, the first if there are several.
pub open spec fn schema_of(schemas: Seq<(Seq<char>, JsonView)>, name: Seq<char>) -> Option<JsonView> {
    match key_at(schemas, name, 0) {
        Some(i) => Some(schemas[i].1),
        None => None,
    }
}

/// Every verb has a schema of an object that denies unknown fields.
pub open spec fn all_strict(tools: Seq<ToolView>, schemas: Seq<(Seq<char>, JsonView)>) -> bool {
    forall|i: int|
        0 <= i < tools.len() ==> {
            &&& schema_of(schemas, (#[trigger] tools[i]).name) is Some
            &&& denies_strays(schema_of(schemas, tools[i].name)->0)
        }
}

/// The verbs with their schemas.
pub open spec fn schemed(tools: Seq<ToolView>, schemas: Seq<(Seq<char>, JsonView)>) -> Seq<ToolView> {
    Seq::new(
        tools.len(),
        |i: int|
            ToolView {
                parameters: Some(trimmed_schema(schema_of(schemas, tools[i].name)->0)),
                ..tools[i]
            },
    )
}

/// Whether a schema is that of an object that denies unknown fields.
fn is_strict(schema: &Json) -> (b: bool)
    ensures
        b == denies_strays(schema@),
{
    match schema {
        Json::Object(_) => match schema.get("additionalProperties") {
            Some(Json::Bool(b)) => !*b,
            _ => false,
        },
        _ => false,
    }
}

/// Puts in the schemas of verbs; gives up where one is missing or lets unknown fields pass.
fn fill_schemas(tools: &mut Vec<ToolDef>, schemas: &Vec<(String, Json)>) -> (ok: bool)
    ensures
        ok == all_strict(tool_views(old(tools)@), fields_view(schemas@)),
        ok ==> tool_views(final(tools)@) == schemed(
            tool_views(old(tools)@),
            fields_view(schemas@),
        ),
{
    let ghost before = tool_views(tools@);
    let ghost given = fields_view(schemas@);
    let mut i: usize = 0;
    while i < tools.len()
        invariant
            0 <= i <= tools.len(),
            tools.len() == before.len(),
            before == tool_views(old(tools)@),
            given == fields_view(schemas@),
            forall|k: int|
                0 <= k < i ==> (#[trigger] tools@[k])@ == schemed(before, given)[k] && schema_of(
                    given,
                    before[k].name,
                ) is Some && denies_strays(schema_of(given, before[k].name)->0),
            forall|k: int| i <= k < tools.len() ==> (#[trigger] tools@[k])@ == before[k],
        decreases tools.len() - i,
    {
        assert(tools@[i as int]@ == before[i as int]);
        match find_key(schemas, tools[i].name.as_str()) {
            Some(k) => {
                proof {
                    lemma_fields(schemas@);
                }
                assert(given[k as int].1 == schemas@[k as int].1@);
                if !is_strict(&schemas[k].1) {
                    assert(!denies_strays(schema_of(given, before[i as int].name)->0));
                    return false;
                }
                tools[i].parameters = Some(trim_schema(&schemas[k].1));
            },
            None => {
                assert(schema_of(given, before[i as int].name) is None);
                return false;
            },
        }
        i = i + 1;
    }
    assert(tool_views(tools@) =~= schemed(before, given));
    assert forall|k: int| 0 <= k < before.len() implies schema_of(
        given,
        (#[trigger] before[k]).name,
    ) is Some && denies_strays(schema_of(given, before[k].name)->0) by {
        assert(tools@[k]@ == schemed(before, given)[k]);
    }
    true
}

impl ToolRegistry {
    /// The verbs of a role.
    pub closed spec fn tools(self, role: Role) -> Seq<ToolView> {
        match role {
            Role::TeamAgent => tool_views(self.team@),
            Role::Orchestrator => tool_views(self.orchestrator@),
            Role::MetaAgent => tool_views(self.meta@),
        }
    }

    /// The registry of every role before the schemas of the arguments are put in.
    fn without_schemas() -> (r: ToolRegistry)
        ensures
            forall|role: Role| #[trigger] r.tools(role) == catalogue(role),
    {
        let mut team: Vec<ToolDef> = Vec::new();
        assert(tool_views(team@) =~= Seq::<ToolView>::empty());
        push_tool(
            &mut team,
            "claim_task",
            "Take exclusive ownership of an Open task your team is eligible for. First claim wins; a lost race returns a rejected outcome.",
        );
        push_tool(
            &mut team,
            "complete_task",
            "Mark your claimed task Done and record its result into the knowledge store.",
        );
        push_tool(
            &mut team,
            "release_task",
            "Return your claimed task to Open, optionally with a reason.",
        );
        push_shared(&mut team);
        push_tool(&mut team, "sleep", "Go Asleep from Idle until explicitly woken.");
        let mut orchestrator: Vec<ToolDef> = Vec::new();
        assert(tool_views(orchestrator@) =~= Seq::<ToolView>::empty());
        push_tool(
            &mut orchestrator,
            "create_task",
            "Author a new Open task on the board, optionally tagged to a team for claim-eligibility.",
        );
        push_tool(
            &mut orchestrator,
            "cancel_task",
            "Cancel an Open task with a reason so the run can converge deliberately.",
        );
        push_tool(
            &mut orchestrator,
            "unassign_task",
            "Forcibly return a Claimed task to Open — the reallocation and pre-respecialization move. Cite a directive with in_response_to to fulfill it.",
        );
        push_tool(
            &mut orchestrator,
            "form_team",
            "Form a team over pool agents: a routable message scope plus a task claim-eligibility scope.",
        );
        push_tool(
            &mut orchestrator,
            "dissolve_team",
            "Dissolve a team, releasing both scopes. Rejected while live team-tagged tasks remain.",
        );
        push_tool(
            &mut orchestrator,
            "set_team_members",
            "Declaratively replace a team's member set. Cite a directive with in_response_to to fulfill it.",
        );
        push_tool(
            &mut orchestrator,
            "respecialize",
            "Swap an Idle agent's specialty and system prompt, wiping its recent-activity window; identity preserved. Cite a directive with in_response_to to fulfill it.",
        );
        push_tool(&mut orchestrator, "sleep_agent", "Put an Idle team agent to sleep.");
        push_tool(
            &mut orchestrator,
            "wake_agent",
            "Wake a sleeping or parked agent; restores Working with its still-claimed task, else Idle.",
        );
        push_tool(
            &mut orchestrator,
            "decline_directive",
            "Decline a pending judgment directive with a logged reason.",
        );
        push_shared(&mut orchestrator);
        push_tool(
            &mut orchestrator,
            "finish_run",
            "End the run. Rejected (enumerating blockers) if any task is Open or Claimed.",
        );
        let mut meta: Vec<ToolDef> = Vec::new();
        assert(tool_views(meta@) =~= Seq::<ToolView>::empty());
        push_tool(
            &mut meta,
            "set_parallelism",
            "Mechanical directive: retune the effective team-agent permit count within [1, --parallel]. Applied by the runtime.",
        );
        push_tool(
            &mut meta,
            "sleep_agent",
            "Mechanical directive: put an Idle team agent to sleep. Applied by the runtime.",
        );
        push_tool(
            &mut meta,
            "wake_agent",
            "Mechanical directive: wake a sleeping or parked agent. Applied by the runtime.",
        );
        push_tool(
            &mut meta,
            "propose_respecialize",
            "Judgment directive: propose the orchestrator respecialize an agent. Returns a directive id.",
        );
        push_tool(
            &mut meta,
            "propose_reallocate",
            "Judgment directive: propose the orchestrator unassign and reallocate a claimed task. Returns a directive id.",
        );
        push_tool(
            &mut meta,
            "propose_rebalance",
            "Judgment directive: propose the orchestrator rebalance a team's member set. Returns a directive id.",
        );
        let r = ToolRegistry { team, orchestrator, meta };
        assert(r.tools(Role::TeamAgent) == catalogue(Role::TeamAgent));
        assert(r.tools(Role::Orchestrator) == catalogue(Role::Orchestrator));
        assert(r.tools(Role::MetaAgent) == catalogue(Role::MetaAgent));
        r
    }

    /// The registry of every role with the schemas of the verbs' arguments, if every verb has one and
    /// each is that of an object that denies unknown fields.
    pub fn new(schemas: &Vec<(String, Json)>) -> (r: Option<ToolRegistry>)
        ensures
            r is Some <==> forall|role: Role|
                #[trigger] all_strict(catalogue(role), fields_view(schemas@)),
            r is Some ==> forall|role: Role| #[trigger]
                r->0.tools(role) == schemed(catalogue(role), fields_view(schemas@)),
    {
        let mut r = ToolRegistry::without_schemas();
        let ghost given = fields_view(schemas@);
        assert(r.tools(Role::TeamAgent) == catalogue(Role::TeamAgent));
        assert(r.tools(Role::Orchestrator) == catalogue(Role::Orchestrator));
        assert(r.tools(Role::MetaAgent) == catalogue(Role::MetaAgent));
        if !fill_schemas(&mut r.team, schemas) {
            assert(!all_strict(catalogue(Role::TeamAgent), given));
            return None;
        }
        if !fill_schemas(&mut r.orchestrator, schemas) {
            assert(!all_strict(catalogue(Role::Orchestrator), given));
            return None;
        }
        if !fill_schemas(&mut r.meta, schemas) {
            assert(!all_strict(catalogue(Role::MetaAgent), given));
            return None;
        }
        assert(r.tools(Role::TeamAgent) == schemed(catalogue(Role::TeamAgent), given));
        assert(r.tools(Role::Orchestrator) == schemed(catalogue(Role::Orchestrator), given));
        assert(r.tools(Role::MetaAgent) == schemed(catalogue(Role::MetaAgent), given));
        Some(r)
    }

    /// The verbs of a role.
    pub fn tool_defs(&self, role: Role) -> (r: &Vec<ToolDef>)
        ensures
            tool_views(r@) == self.tools(role),
    {
        match role {
            Role::TeamAgent => &self.team,
            Role::Orchestrator => &self.orchestrator,
            Role::MetaAgent => &self.meta,
        }
    }

    /// Whether a role offers a verb.
    pub fn contains(&self, role: Role, name: &str) -> (b: bool)
        ensures
            b == offers(self.tools(role), name@),
    {
        let tools = self.tool_defs(role);
        let mut i: usize = 0;
        while i < tools.len()
            invariant
                0 <= i <= tools.len(),
                tool_views(tools@) == self.tools(role),
                forall|k: int| 0 <= k < i ==> (#[trigger] self.tools(role)[k]).name != name@,
            decreases tools.len() - i,
        {
            if same(tools[i].name.as_str(), name) {
                assert(self.tools(role)[i as int].name == name@);
                return true;
            }
            i = i + 1;
        }
        false
    }
}

/// The verbs that team agents and the orchestrator share.
fn push_shared(tools: &mut Vec<ToolDef>)
    ensures
        tool_views(final(tools)@) == tool_views(old(tools)@).push(
            bare_tool(
                "post_message"@,
                "Send a realtime message: exactly one of `to` (direct to an agent), `team` (a live team), or `broadcast: true`."@,
            ),
        ).push(
            bare_tool(
                "write_knowledge"@,
                "Record a Note into the shared knowledge store — no delivery; discoverable by later search."@,
            ),
        ).push(
            bare_tool(
                "search_knowledge"@,
                "Top-k cosine search of the shared knowledge store."@,
            ),
        ),
{
    push_tool(
        tools,
        "post_message",
        "Send a realtime message: exactly one of `to` (direct to an agent), `team` (a live team), or `broadcast: true`.",
    );
    push_tool(
        tools,
        "write_knowledge",
        "Record a Note into the shared knowledge store — no delivery; discoverable by later search.",
    );
    push_tool(
        tools,
        "search_knowledge",
        "Top-k cosine search of the shared knowledge store.",
    );
}

// ---------------------------------------------------------------------------
// Laws.
// ---------------------------------------------------------------------------

proof fn lemma_key_push(
    fields: Seq<(Seq<char>, JsonView)>,
    last: (Seq<char>, JsonView),
    key: Seq<char>,
    i: int,
)
    requires
        0 <= i <= fields.len(),
    ensures
        key_at(fields.push(last), key, i) == (match key_at(fields, key, i) {
            Some(k) => Some(k),
            None => if last.0 == key {
                Some(fields.len() as int)
            } else {
                None
            },
        }),
        key_at(fields, key, i) matches Some(k) ==> i <= k < fields.len(),
    decreases fields.len() - i,
{
    if i < fields.len() {
        lemma_key_push(fields, last, key, i + 1);
        assert(fields.push(last)[i] == fields[i]);
    } else {
        assert(fields.push(last)[i] == last);
        assert(key_at(fields.push(last), key, i + 1) is None);
    }
}

proof fn lemma_trimmed_get(fields: Seq<(Seq<char>, JsonView)>, key: Seq<char>)
    ensures
        JsonView::Object(trimmed_fields(fields)).get(key) == (if key == "$schema"@ || key
            == "title"@ {
            None
        } else {
            JsonView::Object(fields).get(key)
        }),
    decreases fields.len(),
{
    if fields.len() > 0 {
        let before = fields.drop_last();
        let last = fields.last();
        lemma_trimmed_get(before, key);
        assert(fields =~= before.push(last));
        lemma_key_push(before, last, key, 0);
        lemma_key_push(trimmed_fields(before), last, key, 0);
    }
}

/// The schemas that requests carry deny unknown fields and hold neither `$schema` nor `title`; every
/// other key is as it was.
pub proof fn schemas_are_strict(
    tools: Seq<ToolView>,
    schemas: Seq<(Seq<char>, JsonView)>,
    i: int,
    key: Seq<char>,
)
    requires
        all_strict(tools, schemas),
        0 <= i < tools.len(),
    ensures
        schemed(tools, schemas)[i].parameters is Some,
        denies_strays(schemed(tools, schemas)[i].parameters->0),
        schemed(tools, schemas)[i].parameters->0.get("$schema"@) is None,
        schemed(tools, schemas)[i].parameters->0.get("title"@) is None,
        key != "$schema"@ && key != "title"@ ==> schemed(tools, schemas)[i].parameters->0.get(key)
            == schema_of(schemas, tools[i].name)->0.get(key),
        schemed(tools, schemas)[i].name == tools[i].name,
        schemed(tools, schemas)[i].strict == tools[i].strict,
{
    let schema = schema_of(schemas, tools[i].name)->0;
    assert(denies_strays(schema));
    let fields = schema->Object_0;
    lemma_trimmed_get(fields, "$schema"@);
    lemma_trimmed_get(fields, "title"@);
    lemma_trimmed_get(fields, "additionalProperties"@);
    lemma_trimmed_get(fields, key);
    reveal_strlit("$schema");
    reveal_strlit("title");
    reveal_strlit("additionalProperties");
    assert("additionalProperties"@.len() == 20);
}

} // verus!
