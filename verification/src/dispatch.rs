//! From a call to what it does: dispatch by name, what a call needs from outside first, and the
//! short form in which a call is remembered.
use crate::agent::{AgentId, Role};
use crate::context::ProfileView;
use crate::directive::DirectiveKind;
use crate::event::text_view;
use crate::ids::{DirectiveId, TaskId};
use crate::json::{parsed_json, Json, JsonView};
use crate::knowledge::{KnowledgeError, ScoredEntry};
use crate::text::{byte_len, chars_of, dec, dec_text, same, text_of, texts};
use crate::tools::{
    offers, unknown_verb_view, OutcomeView, ToolOutcome, ToolRegistry, ToolView, VerbArgs,
};
use crate::verbs::{
    address_of, args_value, cancel_step, claim_step, complete_step, create_step, decline_step,
    dissolve_step, fault, finish_step, form_step, handle_cancel_task, handle_claim,
    handle_complete, handle_create_task, handle_decline_directive, handle_dissolve_team,
    handle_finish_run, handle_form_team, handle_meta_sleep_agent, handle_meta_wake_agent,
    handle_post_message, handle_propose, handle_release, handle_respecialize,
    handle_search_knowledge, handle_self_sleep, handle_set_parallelism, handle_set_team_members,
    handle_sleep_agent, handle_unassign, handle_wake_agent, handle_write_knowledge, hit_count,
    members_step, meta_sleep_step, meta_wake_step, parallel_step, permit_room, post_step,
    profile_of, propose_step, release_step, resolve_address, respecialize_step, search_size,
    search_view, self_sleep_step, sleep_step, unassign_step, wake_step, write_step, Step,
};
use crate::world::{World, WorldView};
use vstd::prelude::*;

verus! {

/// What was fetched from outside for a call: whether its text could be embedded, and what a search
/// found.
#[derive(Debug)]
pub struct Replies {
    /// Why embedding failed, if it did.
    pub embedded: Option<KnowledgeError>,
    /// What the search found.
    pub hits: Result<Vec<ScoredEntry>, KnowledgeError>,
}

/// What decoded arguments do.
pub open spec fn args_step(
    w: WorldView,
    role: Role,
    caller: AgentId,
    args: VerbArgs,
    replies: Replies,
) -> Step {
    let failure = fault(replies.embedded);
    match args {
        VerbArgs::ClaimTask(a) => claim_step(w, caller, TaskId(a.task)),
        VerbArgs::CompleteTask(a) => complete_step(w, caller, a.result@, failure),
        VerbArgs::ReleaseTask(a) => release_step(w, caller, text_view(a.reason)),
        VerbArgs::PostMessage(a) => post_step(
            w,
            caller,
            text_view(a.to),
            text_view(a.team),
            a.broadcast,
            a.body@,
            failure,
        ),
        VerbArgs::WriteKnowledge(a) => write_step(w, caller, a.text@, failure),
        VerbArgs::SearchKnowledge(_) => (w, search_view(replies.hits)),
        VerbArgs::Sleep(_) => self_sleep_step(w, caller),
        VerbArgs::CreateTask(a) => create_step(
            w,
            caller,
            a.title@,
            a.description@,
            text_view(a.team),
        ),
        VerbArgs::CancelTask(a) => cancel_step(w, caller, TaskId(a.task), a.reason@),
        VerbArgs::UnassignTask(a) => unassign_step(
            w,
            caller,
            TaskId(a.task),
            text_view(a.reason),
            a.in_response_to,
        ),
        VerbArgs::FormTeam(a) => form_step(w, caller, a.team@, texts(a.members@)),
        VerbArgs::DissolveTeam(a) => dissolve_step(w, caller, a.team@),
        VerbArgs::SetTeamMembers(a) => members_step(
            w,
            caller,
            a.team@,
            texts(a.members@),
            a.in_response_to,
        ),
        VerbArgs::Respecialize(a) => respecialize_step(
            w,
            caller,
            a.agent@,
            profile_of(a),
            a.in_response_to,
        ),
        VerbArgs::SleepAgent(a) => if role is MetaAgent {
            meta_sleep_step(w, caller, a.agent@)
        } else {
            sleep_step(w, caller, a.agent@)
        },
        VerbArgs::WakeAgent(a) => if role is MetaAgent {
            meta_wake_step(w, caller, a.agent@)
        } else {
            wake_step(w, caller, a.agent@)
        },
        VerbArgs::DeclineDirective(a) => decline_step(
            w,
            caller,
            DirectiveId(a.directive),
            a.reason@,
        ),
        VerbArgs::FinishRun(a) => finish_step(w, a.report@),
        VerbArgs::SetParallelism(a) => parallel_step(w, caller, a.target),
        VerbArgs::Propose(kind, raw) => propose_step(w, caller, kind, raw@),
    }
}

/// What a call does: an unknown verb and arguments that do not fit change nothing.
pub open spec fn call_step(
    w: WorldView,
    tools: Seq<ToolView>,
    role: Role,
    caller: AgentId,
    name: Seq<char>,
    decoded: Result<VerbArgs, String>,
    replies: Replies,
) -> Step {
    if !offers(tools, name) {
        (w, unknown_verb_view(name))
    } else {
        match decoded {
            Err(error) => (
                w,
                OutcomeView::Invalid {
                    code: "invalid_arguments"@,
                    message: "bad arguments for "@ + name + ": "@ + error@,
                },
            ),
            Ok(args) => args_step(w, role, caller, args, replies),
        }
    }
}

/// The bytes of knowledge that a call may bring.
pub open spec fn call_bytes(decoded: Result<VerbArgs, String>) -> nat {
    match decoded {
        Ok(VerbArgs::CompleteTask(a)) => byte_len(a.result@),
        Ok(VerbArgs::PostMessage(a)) => byte_len(a.body@),
        Ok(VerbArgs::WriteKnowledge(a)) => byte_len(a.text@),
        _ => 0,
    }
}

/// The text that a call wants embedded before it is dispatched, if it gets that far.
pub open spec fn wanted(
    w: WorldView,
    tools: Seq<ToolView>,
    caller: AgentId,
    name: Seq<char>,
    decoded: Result<VerbArgs, String>,
) -> Option<Seq<char>> {
    if !offers(tools, name) {
        None
    } else {
        match decoded {
            Ok(VerbArgs::CompleteTask(a)) => if w.board.claim_of(caller) is Some {
                Some(a.result@)
            } else {
                None
            },
            Ok(VerbArgs::PostMessage(a)) => if address_of(
                w,
                text_view(a.to),
                text_view(a.team),
                a.broadcast,
            ) is Ok {
                Some(a.body@)
            } else {
                None
            },
            Ok(VerbArgs::WriteKnowledge(a)) => Some(a.text@),
            _ => None,
        }
    }
}

/// The search that a call wants made before it is dispatched: what to look for and how many hits.
pub open spec fn sought(
    tools: Seq<ToolView>,
    name: Seq<char>,
    decoded: Result<VerbArgs, String>,
) -> Option<(Seq<char>, usize)> {
    match decoded {
        Ok(VerbArgs::SearchKnowledge(a)) => if offers(tools, name) {
            Some((a.query@, hit_count(a.k)))
        } else {
            None
        },
        _ => None,
    }
}

impl ToolRegistry {
    /// The text that a call wants embedded before it is dispatched.
    pub fn embedding_wanted(
        &self,
        role: Role,
        caller: &AgentId,
        name: &str,
        decoded: &Result<VerbArgs, String>,
        world: &World,
    ) -> (r: Option<String>)
        ensures
            text_view(r) == wanted(world@, self.tools(role), *caller, name@, *decoded),
    {
        if !self.contains(role, name) {
            return None;
        }
        match decoded {
            Ok(VerbArgs::CompleteTask(a)) => if world.board.claimed_by(caller).is_some() {
                Some(a.result.clone())
            } else {
                None
            },
            Ok(VerbArgs::PostMessage(a)) => match resolve_address(world, a) {
                Ok(_) => Some(a.body.clone()),
                Err(_) => None,
            },
            Ok(VerbArgs::WriteKnowledge(a)) => Some(a.text.clone()),
            _ => None,
        }
    }

    /// The search that a call wants made before it is dispatched.
    pub fn search_wanted(&self, role: Role, name: &str, decoded: &Result<VerbArgs, String>) -> (r:
        Option<(String, usize)>)
        ensures
            match r {
                Some((query, k)) => sought(self.tools(role), name@, *decoded) == Some((query@, k)),
                None => sought(self.tools(role), name@, *decoded) is None,
            },
    {
        match decoded {
            Ok(VerbArgs::SearchKnowledge(a)) => if self.contains(role, name) {
                Some((a.query.clone(), search_size(a)))
            } else {
                None
            },
            _ => None,
        }
    }

    /// Dispatches a call by its name.
    pub fn dispatch(
        &self,
        role: Role,
        caller: &AgentId,
        name: &str,
        decoded: Result<VerbArgs, String>,
        replies: Replies,
        world: &mut World,
    ) -> (r: ToolOutcome)
        requires
            old(world).valid(),
            old(world)@.room(2, call_bytes(decoded), 0),
            permit_room(old(world)@),
            decoded is Ok ==> decoded->Ok_0.verb() == name@,
        ensures
            final(world).valid(),
            (final(world)@, r@) == call_step(
                old(world)@,
                self.tools(role),
                role,
                *caller,
                name@,
                decoded,
                replies,
            ),
    {
        if !self.contains(role, name) {
            return ToolOutcome::unknown_verb(name);
        }
        let args = match decoded {
            Ok(args) => args,
            Err(error) => {
                let mut message = "bad arguments for ".to_owned();
                message.push_str(name);
                message.push_str(": ");
                message.push_str(error.as_str());
                return ToolOutcome::invalid_arguments(message);
            },
        };
        match args {
            VerbArgs::ClaimTask(a) => handle_claim(caller, a, world),
            VerbArgs::CompleteTask(a) => handle_complete(caller, a, replies.embedded, world),
            VerbArgs::ReleaseTask(a) => handle_release(caller, a, world),
            VerbArgs::PostMessage(a) => handle_post_message(caller, a, replies.embedded, world),
            VerbArgs::WriteKnowledge(a) => handle_write_knowledge(
                caller,
                a,
                replies.embedded,
                world,
            ),
            VerbArgs::SearchKnowledge(_) => handle_search_knowledge(replies.hits),
            VerbArgs::Sleep(_) => handle_self_sleep(caller, world),
            VerbArgs::CreateTask(a) => handle_create_task(caller, a, world),
            VerbArgs::CancelTask(a) => handle_cancel_task(caller, a, world),
            VerbArgs::UnassignTask(a) => handle_unassign(caller, a, world),
            VerbArgs::FormTeam(a) => handle_form_team(caller, a, world),
            VerbArgs::DissolveTeam(a) => handle_dissolve_team(caller, a, world),
            VerbArgs::SetTeamMembers(a) => handle_set_team_members(caller, a, world),
            VerbArgs::Respecialize(a) => handle_respecialize(caller, a, world),
            VerbArgs::SleepAgent(a) => match role {
                Role::MetaAgent => handle_meta_sleep_agent(caller, a, world),
                _ => handle_sleep_agent(caller, a, world),
            },
            VerbArgs::WakeAgent(a) => match role {
                Role::MetaAgent => handle_meta_wake_agent(caller, a, world),
                _ => handle_wake_agent(caller, a, world),
            },
            VerbArgs::DeclineDirective(a) => handle_decline_directive(caller, a, world),
            VerbArgs::FinishRun(a) => handle_finish_run(a, world),
            VerbArgs::SetParallelism(a) => handle_set_parallelism(caller, a, world),
            VerbArgs::Propose(kind, raw) => handle_propose(caller, kind, raw.as_str(), world),
        }
    }
}

// ---------------------------------------------------------------------------
// The short form of a call.
// ---------------------------------------------------------------------------

/// The first 24 characters between double quotes, with an ellipsis if there are more.
pub open spec fn quoted_start(text: Seq<char>) -> Seq<char> {
    if text.len() > 24 {
        "\""@ + text.take(24) + "…\""@
    } else {
        "\""@ + text + "\""@
    }
}

/// The start of the string under a key, or nothing.
pub open spec fn quoted_member(args: JsonView, key: Seq<char>) -> Seq<char> {
    match args.get(key) {
        Some(JsonView::Text(s)) => quoted_start(s),
        _ => Seq::empty(),
    }
}

/// The string under a key.
pub open spec fn text_member(args: JsonView, key: Seq<char>) -> Option<Seq<char>> {
    match args.get(key) {
        Some(JsonView::Text(s)) => Some(s),
        _ => None,
    }
}

/// The short form of a call's arguments.
pub open spec fn gist(name: Seq<char>, args: JsonView) -> Seq<char> {
    if name == "claim_task"@ {
        "task:"@ + dec(
            match args.get("task"@) {
                Some(v) => match v.whole() {
                    Some(n) => n as nat,
                    None => 0,
                },
                None => 0,
            },
        )
    } else if name == "complete_task"@ {
        quoted_member(args, "result"@)
    } else if name == "write_knowledge"@ {
        quoted_member(args, "text"@)
    } else if name == "search_knowledge"@ {
        quoted_member(args, "query"@)
    } else if name == "post_message"@ {
        if text_member(args, "to"@) is Some {
            "to:"@ + text_member(args, "to"@)->0
        } else if text_member(args, "team"@) is Some {
            "team:"@ + text_member(args, "team"@)->0
        } else {
            "broadcast"@
        }
    } else {
        Seq::empty()
    }
}

/// Quotes the start of a text.
fn quote_prefix(text: &str) -> (s: String)
    ensures
        s@ == quoted_start(text@),
{
    let v = chars_of(text);
    let mut s = "\"".to_owned();
    if v.len() > 24 {
        let start = vstd::slice::slice_subrange(v.as_slice(), 0, 24);
        assert(start@ =~= text@.take(24));
        s.push_str(text_of(start).as_str());
        s.push_str("…\"");
    } else {
        s.push_str(text);
        s.push_str("\"");
    }
    s
}

/// The string under a key.
fn member_text<'a>(args: &'a Json, key: &str) -> (r: Option<&'a str>)
    ensures
        match r {
            Some(s) => text_member(args@, key@) == Some(s@),
            None => text_member(args@, key@) is None,
        },
{
    match args.get(key) {
        Some(v) => v.as_str(),
        None => None,
    }
}

/// Quotes the start of the string under a key.
fn quote_member(args: &Json, key: &str) -> (s: String)
    ensures
        s@ == quoted_member(args@, key@),
{
    match member_text(args, key) {
        Some(t) => quote_prefix(t),
        None => String::new(),
    }
}

/// The short form of a call, given its arguments as a JSON value.
pub fn gist_of(name: &str, args: &Json) -> (s: String)
    ensures
        s@ == gist(name@, args@),
{
    if same(name, "claim_task") {
        let n: u64 = match args.get("task") {
            Some(v) => match v.as_u64() {
                Some(n) => n,
                None => 0,
            },
            None => 0,
        };
        let mut s = "task:".to_owned();
        s.push_str(dec_text(n).as_str());
        s
    } else if same(name, "complete_task") {
        quote_member(args, "result")
    } else if same(name, "write_knowledge") {
        quote_member(args, "text")
    } else if same(name, "search_knowledge") {
        quote_member(args, "query")
    } else if same(name, "post_message") {
        if let Some(to) = member_text(args, "to") {
            let mut s = "to:".to_owned();
            s.push_str(to);
            s
        } else if let Some(team) = member_text(args, "team") {
            let mut s = "team:".to_owned();
            s.push_str(team);
            s
        } else {
            "broadcast".to_owned()
        }
    } else {
        String::new()
    }
}

/// The short form of a call, given its arguments as they were sent.
pub fn call_gist(name: &str, arguments: &str) -> (s: String)
    ensures
        s@ == gist(
            name@,
            match parsed_json(arguments@) {
                Some(v) => v,
                None => JsonView::Null,
            },
        ),
{
    let args = args_value(arguments);
    gist_of(name, &args)
}

// ---------------------------------------------------------------------------
// Laws.
// ---------------------------------------------------------------------------

/// What every verb keeps to: it is not invalid, and if it is not accepted nothing has changed.
pub open spec fn proper(w: WorldView, s: Step) -> bool {
    !(s.1 is Invalid) && (!(s.1 is Accepted) ==> s.0 == w)
}

proof fn lemma_pool_agents_reject(w: WorldView, handles: Seq<Seq<char>>)
    ensures
        crate::verbs::pool_agents(w, handles) is Err ==> crate::verbs::pool_agents(
            w,
            handles,
        )->Err_0 is Rejected,
    decreases handles.len(),
{
    if handles.len() > 0 {
        lemma_pool_agents_reject(w, handles.drop_last());
    }
}

proof fn lemma_claim_proper(w: WorldView, c: AgentId, t: TaskId)
    ensures
        proper(w, claim_step(w, c, t)),
{
}

proof fn lemma_complete_proper(w: WorldView, c: AgentId, x: Seq<char>, f: Option<Seq<char>>)
    ensures
        proper(w, complete_step(w, c, x, f)),
{
}

proof fn lemma_release_proper(w: WorldView, c: AgentId, r: Option<Seq<char>>)
    ensures
        proper(w, release_step(w, c, r)),
{
}

proof fn lemma_post_proper(w: WorldView, c: AgentId, to: Option<Seq<char>>, team: Option<Seq<char>>, all: Option<bool>, x: Seq<char>, f: Option<Seq<char>>)
    ensures
        proper(w, post_step(w, c, to, team, all, x, f)),
{
}

proof fn lemma_write_proper(w: WorldView, c: AgentId, x: Seq<char>, f: Option<Seq<char>>)
    ensures
        proper(w, write_step(w, c, x, f)),
{
}

proof fn lemma_self_sleep_proper(w: WorldView, c: AgentId)
    ensures
        proper(w, self_sleep_step(w, c)),
{
}

proof fn lemma_create_proper(w: WorldView, c: AgentId, x: Seq<char>, y: Seq<char>, team: Option<Seq<char>>)
    ensures
        proper(w, create_step(w, c, x, y, team)),
{
}

proof fn lemma_cancel_proper(w: WorldView, c: AgentId, t: TaskId, x: Seq<char>)
    ensures
        proper(w, cancel_step(w, c, t, x)),
{
}

proof fn lemma_unassign_proper(w: WorldView, c: AgentId, t: TaskId, r: Option<Seq<char>>, cite: Option<u64>)
    ensures
        proper(w, unassign_step(w, c, t, r, cite)),
{
}

proof fn lemma_form_proper(w: WorldView, c: AgentId, x: Seq<char>, list: Seq<Seq<char>>)
    ensures
        proper(w, form_step(w, c, x, list)),
{
    lemma_pool_agents_reject(w, list);
}

proof fn lemma_dissolve_proper(w: WorldView, c: AgentId, x: Seq<char>)
    ensures
        proper(w, dissolve_step(w, c, x)),
{
}

proof fn lemma_members_proper(w: WorldView, c: AgentId, x: Seq<char>, list: Seq<Seq<char>>, cite: Option<u64>)
    ensures
        proper(w, members_step(w, c, x, list, cite)),
{
    lemma_pool_agents_reject(w, list);
}

proof fn lemma_respecialize_proper(w: WorldView, c: AgentId, x: Seq<char>, p: ProfileView, cite: Option<u64>)
    ensures
        proper(w, respecialize_step(w, c, x, p, cite)),
{
}

proof fn lemma_sleep_proper(w: WorldView, c: AgentId, x: Seq<char>)
    ensures
        proper(w, sleep_step(w, c, x)),
{
}

proof fn lemma_meta_sleep_proper(w: WorldView, c: AgentId, x: Seq<char>)
    ensures
        proper(w, meta_sleep_step(w, c, x)),
{
}

proof fn lemma_wake_proper(w: WorldView, c: AgentId, x: Seq<char>)
    ensures
        proper(w, wake_step(w, c, x)),
{
}

proof fn lemma_meta_wake_proper(w: WorldView, c: AgentId, x: Seq<char>)
    ensures
        proper(w, meta_wake_step(w, c, x)),
{
}

proof fn lemma_decline_proper(w: WorldView, c: AgentId, d: DirectiveId, x: Seq<char>)
    ensures
        proper(w, decline_step(w, c, d, x)),
{
}

proof fn lemma_finish_proper(w: WorldView, c: AgentId, x: Seq<char>)
    ensures
        proper(w, finish_step(w, x)),
{
}

proof fn lemma_parallel_proper(w: WorldView, c: AgentId, n: u32)
    ensures
        proper(w, parallel_step(w, c, n)),
{
}

proof fn lemma_propose_proper(w: WorldView, c: AgentId, k: DirectiveKind, x: Seq<char>)
    ensures
        proper(w, propose_step(w, c, k, x)),
{
}

/// Every verb keeps to it.
proof fn lemma_args_proper(w: WorldView, role: Role, c: AgentId, args: VerbArgs, replies: Replies)
    ensures
        proper(w, args_step(w, role, c, args, replies)),
{
    let f = fault(replies.embedded);
    match args {
        VerbArgs::ClaimTask(a) => lemma_claim_proper(w, c, TaskId(a.task)),
        VerbArgs::CompleteTask(a) => lemma_complete_proper(w, c, a.result@, f),
        VerbArgs::ReleaseTask(a) => lemma_release_proper(w, c, text_view(a.reason)),
        VerbArgs::PostMessage(a) => lemma_post_proper(
            w,
            c,
            text_view(a.to),
            text_view(a.team),
            a.broadcast,
            a.body@,
            f,
        ),
        VerbArgs::WriteKnowledge(a) => lemma_write_proper(w, c, a.text@, f),
        VerbArgs::SearchKnowledge(_) => {},
        VerbArgs::Sleep(_) => lemma_self_sleep_proper(w, c),
        VerbArgs::CreateTask(a) => lemma_create_proper(
            w,
            c,
            a.title@,
            a.description@,
            text_view(a.team),
        ),
        VerbArgs::CancelTask(a) => lemma_cancel_proper(w, c, TaskId(a.task), a.reason@),
        VerbArgs::UnassignTask(a) => lemma_unassign_proper(
            w,
            c,
            TaskId(a.task),
            text_view(a.reason),
            a.in_response_to,
        ),
        VerbArgs::FormTeam(a) => lemma_form_proper(w, c, a.team@, texts(a.members@)),
        VerbArgs::DissolveTeam(a) => lemma_dissolve_proper(w, c, a.team@),
        VerbArgs::SetTeamMembers(a) => lemma_members_proper(
            w,
            c,
            a.team@,
            texts(a.members@),
            a.in_response_to,
        ),
        VerbArgs::Respecialize(a) => lemma_respecialize_proper(
            w,
            c,
            a.agent@,
            profile_of(a),
            a.in_response_to,
        ),
        VerbArgs::SleepAgent(a) => {
            lemma_meta_sleep_proper(w, c, a.agent@);
            lemma_sleep_proper(w, c, a.agent@);
        },
        VerbArgs::WakeAgent(a) => {
            lemma_meta_wake_proper(w, c, a.agent@);
            lemma_wake_proper(w, c, a.agent@);
        },
        VerbArgs::DeclineDirective(a) => lemma_decline_proper(
            w,
            c,
            DirectiveId(a.directive),
            a.reason@,
        ),
        VerbArgs::FinishRun(a) => lemma_finish_proper(w, c, a.report@),
        VerbArgs::SetParallelism(a) => lemma_parallel_proper(w, c, a.target),
        VerbArgs::Propose(kind, raw) => lemma_propose_proper(w, c, kind, raw@),
    }
}

/// A request to finish is granted exactly when every task is done or cancelled, and it then keeps the
/// report; until the turn ends the run goes on.
pub proof fn only_finished_boards_finish(w: WorldView, report: Seq<char>)
    ensures
        finish_step(w, report).1 is Accepted <==> forall|i: int|
            0 <= i < w.board.tasks.len() ==> (#[trigger] w.board.tasks[i]).state.terminal(),
        finish_step(w, report).1 is Accepted ==> finish_step(w, report).0 == (WorldView {
            report: Some(report),
            finish_requested: true,
            ..w
        }),
{
    crate::board::blockers_are_the_live_tasks(w.board, w.board.tasks.len() as int);
}

/// A call that is not accepted changes nothing: neither an invalid one nor a rejected one.
pub proof fn refused_calls_change_nothing(
    w: WorldView,
    tools: Seq<ToolView>,
    role: Role,
    caller: AgentId,
    name: Seq<char>,
    decoded: Result<VerbArgs, String>,
    replies: Replies,
)
    ensures
        !(call_step(w, tools, role, caller, name, decoded, replies).1 is Accepted) ==> call_step(
            w,
            tools,
            role,
            caller,
            name,
            decoded,
            replies,
        ).0 == w,
{
    if let Ok(args) = decoded {
        lemma_args_proper(w, role, caller, args, replies);
    }
}

/// Only an unknown verb and arguments that do not fit are invalid; what the domain refuses is
/// rejected.
pub proof fn invalid_means_malformed(
    w: WorldView,
    tools: Seq<ToolView>,
    role: Role,
    caller: AgentId,
    name: Seq<char>,
    decoded: Result<VerbArgs, String>,
    replies: Replies,
)
    ensures
        call_step(w, tools, role, caller, name, decoded, replies).1 is Invalid <==> (!offers(
            tools,
            name,
        ) || decoded is Err),
{
    if let Ok(args) = decoded {
        lemma_args_proper(w, role, caller, args, replies);
    }
}

/// Where no embedding is wanted, what embedding came back with makes no difference.
pub proof fn unwanted_embedding_is_ignored(
    w: WorldView,
    tools: Seq<ToolView>,
    role: Role,
    caller: AgentId,
    name: Seq<char>,
    decoded: Result<VerbArgs, String>,
    replies: Replies,
    other: Option<KnowledgeError>,
)
    requires
        wanted(w, tools, caller, name, decoded) is None,
    ensures
        call_step(w, tools, role, caller, name, decoded, replies) == call_step(
            w,
            tools,
            role,
            caller,
            name,
            decoded,
            Replies { embedded: other, hits: replies.hits },
        ),
{
}

} // verus!
