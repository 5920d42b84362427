//! The verbs: what each call does to the world, and what it comes back with.
//!
//! A call is answered in one of three ways. It is invalid if it names no verb of the caller's role
//! or its arguments do not fit; it is rejected if the domain refuses it, and then the world stays as
//! it was; otherwise it is carried out and logged.
use crate::agent::{handle_agent, is_slug, AgentId, SpecialtySlug};
use crate::board::{copy_agents, missing_from, tag_view, BoardView, StateView, TaskView};
use crate::context::{ProfileView, SpecialtyProfile};
use crate::directive::{
    Directive, DirectiveKind, DirectiveState, DirectiveTier, DirectiveView, ResolutionView,
};
use crate::event::{text_view, EventKind, EventSource, KindView, RestoredState};
use crate::ids::{is_tag, DirectiveId, EventId, KnowledgeEntryId, MessageId, TaskId, TeamId};
use crate::json::{object1, object2, object3, parsed_json, Json, JsonView};
use crate::knowledge::{EntryView, KnowledgeError, KnowledgeKind, ScoredEntry};
use crate::llm::ChannelView;
use crate::message::{mailed, Address, AddressView, Message, MessageView};
use crate::text::{
    byte_len, debug_quote, debug_quoted, dec, dec_text, join, joined, no_lines, push_line, texts,
};
use crate::tools::{
    CancelTaskArgs, ClaimTaskArgs, CompleteTaskArgs, CreateTaskArgs, DeclineDirectiveArgs,
    DissolveTeamArgs, FinishRunArgs, FormTeamArgs, OutcomeView, PostMessageArgs, ReleaseTaskArgs,
    RespecializeArgs, SearchKnowledgeArgs, SetParallelismArgs, SetTeamMembersArgs, SleepAgentArgs,
    ToolOutcome, UnassignTaskArgs, WakeAgentArgs, WriteKnowledgeArgs,
};
use crate::world::{directive_views, lemma_log, slot_at, AgentState, SlotView, World, WorldView};
use vstd::prelude::*;

verus! {

/// A world and what a call came back with.
pub type Step = (WorldView, OutcomeView);

/// A JSON object of one field.
pub open spec fn obj1(k1: Seq<char>, v1: JsonView) -> JsonView {
    JsonView::Object(seq![(k1, v1)])
}

/// A JSON object of two fields.
pub open spec fn obj2(k1: Seq<char>, v1: JsonView, k2: Seq<char>, v2: JsonView) -> JsonView {
    JsonView::Object(seq![(k1, v1), (k2, v2)])
}

/// A JSON object of three fields.
pub open spec fn obj3(
    k1: Seq<char>,
    v1: JsonView,
    k2: Seq<char>,
    v2: JsonView,
    k3: Seq<char>,
    v3: JsonView,
) -> JsonView {
    JsonView::Object(seq![(k1, v1), (k2, v2), (k3, v3)])
}

/// A number as a JSON value.
pub open spec fn num(n: u64) -> JsonView {
    JsonView::number(n)
}

/// A refusal.
pub open spec fn no(code: Seq<char>, message: Seq<char>) -> OutcomeView {
    OutcomeView::rejected(code, message)
}

/// A success.
pub open spec fn yes(result: JsonView) -> OutcomeView {
    OutcomeView::Accepted { result }
}

/// Refuses with a message of three parts.
fn refuse3(code: &str, a: &str, b: &str, c: &str) -> (r: ToolOutcome)
    ensures
        r@ == no(code@, a@ + b@ + c@),
{
    let mut message = a.to_owned();
    message.push_str(b);
    message.push_str(c);
    ToolOutcome::rejected(code, message)
}

/// Refuses with a message of two parts.
fn refuse2(code: &str, a: &str, b: &str) -> (r: ToolOutcome)
    ensures
        r@ == no(code@, a@ + b@),
{
    let mut message = a.to_owned();
    message.push_str(b);
    ToolOutcome::rejected(code, message)
}

/// A handle as a JSON value.
fn handle_json(agent: AgentId) -> (j: Json)
    ensures
        j@ == JsonView::Text(agent.handle()),
{
    Json::Text(agent.as_str())
}

// ---------------------------------------------------------------------------
// Agents, citations and directives.
// ---------------------------------------------------------------------------

/// The team agent that a handle names, or why there is none.
pub open spec fn pool_agent(w: WorldView, handle: Seq<char>) -> Result<AgentId, OutcomeView> {
    match handle_agent(handle) {
        None => Err(no("unknown_agent"@, debug_quote(handle) + " is not an agent handle"@)),
        Some(agent) => if w.has_team_agent(agent) {
            Ok(agent)
        } else {
            Err(no("unknown_agent"@, agent.handle() + " is not a pool team agent"@))
        },
    }
}

/// Finds the team agent that a handle names.
pub fn parse_team_agent(world: &World, handle: &str) -> (r: Result<AgentId, ToolOutcome>)
    ensures
        match r {
            Ok(agent) => pool_agent(world@, handle@) == Ok::<AgentId, OutcomeView>(agent),
            Err(outcome) => pool_agent(world@, handle@) == Err::<AgentId, OutcomeView>(outcome@),
        },
{
    match AgentId::parse(handle) {
        None => Err(
            refuse2("unknown_agent", debug_quoted(handle).as_str(), " is not an agent handle"),
        ),
        Some(agent) => if world.is_team_agent(&agent) {
            Ok(agent)
        } else {
            Err(refuse2("unknown_agent", agent.as_str().as_str(), " is not a pool team agent"))
        },
    }
}

/// The team agents that handles name, or why one of them names none; the first such reason.
pub open spec fn pool_agents(w: WorldView, handles: Seq<Seq<char>>) -> Result<
    Seq<AgentId>,
    OutcomeView,
>
    decreases handles.len(),
{
    if handles.len() == 0 {
        Ok(Seq::empty())
    } else {
        match pool_agents(w, handles.drop_last()) {
            Err(e) => Err(e),
            Ok(before) => match pool_agent(w, handles.last()) {
                Err(e) => Err(e),
                Ok(agent) => Ok(before.push(agent)),
            },
        }
    }
}

proof fn lemma_pool_agents_err(w: WorldView, handles: Seq<Seq<char>>, i: int)
    requires
        0 <= i <= handles.len(),
        pool_agents(w, handles.take(i)) is Err,
    ensures
        pool_agents(w, handles) == pool_agents(w, handles.take(i)),
    decreases handles.len() - i,
{
    if i == handles.len() {
        assert(handles.take(i) =~= handles);
    } else {
        assert(handles.take(i + 1).drop_last() =~= handles.take(i));
        lemma_pool_agents_err(w, handles, i + 1);
    }
}

/// Finds the team agents that handles name.
fn parse_members(world: &World, handles: &Vec<String>) -> (r: Result<Vec<AgentId>, ToolOutcome>)
    ensures
        match r {
            Ok(list) => pool_agents(world@, texts(handles@)) == Ok::<Seq<AgentId>, OutcomeView>(
                list@,
            ),
            Err(outcome) => pool_agents(world@, texts(handles@)) == Err::<
                Seq<AgentId>,
                OutcomeView,
            >(outcome@),
        },
{
    let mut list: Vec<AgentId> = Vec::new();
    let mut i: usize = 0;
    let ghost all = texts(handles@);
    assert(all.take(0) =~= Seq::<Seq<char>>::empty());
    while i < handles.len()
        invariant
            0 <= i <= handles.len(),
            all == texts(handles@),
            pool_agents(world@, all.take(i as int)) == Ok::<Seq<AgentId>, OutcomeView>(list@),
        decreases handles.len() - i,
    {
        assert(all.take(i + 1).drop_last() =~= all.take(i as int));
        assert(all.take(i + 1).last() == handles@[i as int]@);
        match parse_team_agent(world, handles[i].as_str()) {
            Ok(agent) => {
                list.push(agent);
            },
            Err(outcome) => {
                proof {
                    lemma_pool_agents_err(world@, all, i + 1);
                }
                return Err(outcome);
            },
        }
        i = i + 1;
    }
    assert(all.take(i as int) =~= all);
    Ok(list)
}

/// The first position from `i` on of a directive.
pub open spec fn directive_at(
    directives: Seq<DirectiveView>,
    id: DirectiveId,
    i: int,
) -> Option<int>
    decreases directives.len() - i,
{
    if i < 0 || i >= directives.len() {
        None
    } else if directives[i].id == id {
        Some(i)
    } else {
        directive_at(directives, id, i + 1)
    }
}

/// Finds a directive.
fn find_directive(world: &World, id: DirectiveId) -> (r: Option<usize>)
    ensures
        match r {
            Some(i) => directive_at(world@.directives, id, 0) == Some(i as int) && i
                < world.directives.len(),
            None => directive_at(world@.directives, id, 0) is None,
        },
{
    let mut i: usize = 0;
    while i < world.directives.len()
        invariant
            0 <= i <= world.directives.len(),
            directive_at(world@.directives, id, 0) == directive_at(
                world@.directives,
                id,
                i as int,
            ),
        decreases world.directives.len() - i,
    {
        if world.directives[i].id == id {
            return Some(i);
        }
        i = i + 1;
    }
    None
}

/// The directive that a citation names, or why it cannot be cited: it must be a judgment directive
/// that is pending.
pub open spec fn citation(w: WorldView, cite: Option<u64>) -> Result<
    Option<DirectiveId>,
    OutcomeView,
> {
    match cite {
        None => Ok(None),
        Some(raw) => match directive_at(w.directives, DirectiveId(raw), 0) {
            None => Err(
                no(
                    "unknown_directive"@,
                    "directive "@ + dec(raw as nat) + " does not exist"@,
                ),
            ),
            Some(i) => if !(w.directives[i].tier is Judgment) {
                Err(
                    no(
                        "directive_not_pending"@,
                        "directive "@ + dec(raw as nat) + " is mechanical — nothing to fulfill"@,
                    ),
                )
            } else if !(w.directives[i].state is Pending) {
                Err(
                    no(
                        "directive_not_pending"@,
                        "directive "@ + dec(raw as nat) + " is already resolved"@,
                    ),
                )
            } else {
                Ok(Some(DirectiveId(raw)))
            },
        },
    }
}

/// Checks a citation before anything is done.
pub fn validate_cite(world: &World, cite: Option<u64>) -> (r: Result<
    Option<DirectiveId>,
    ToolOutcome,
>)
    ensures
        match r {
            Ok(id) => citation(world@, cite) == Ok::<Option<DirectiveId>, OutcomeView>(id),
            Err(outcome) => citation(world@, cite) == Err::<Option<DirectiveId>, OutcomeView>(
                outcome@,
            ),
        },
{
    let raw = match cite {
        None => {
            return Ok(None);
        },
        Some(raw) => raw,
    };
    match find_directive(world, DirectiveId(raw)) {
        None => Err(
            refuse3(
                "unknown_directive",
                "directive ",
                dec_text(raw).as_str(),
                " does not exist",
            ),
        ),
        Some(i) => {
            let judgment = matches!(world.directives[i].tier, DirectiveTier::Judgment);
            if !judgment {
                Err(
                    refuse3(
                        "directive_not_pending",
                        "directive ",
                        dec_text(raw).as_str(),
                        " is mechanical — nothing to fulfill",
                    ),
                )
            } else if !world.directives[i].is_pending() {
                Err(
                    refuse3(
                        "directive_not_pending",
                        "directive ",
                        dec_text(raw).as_str(),
                        " is already resolved",
                    ),
                )
            } else {
                Ok(Some(DirectiveId(raw)))
            }
        },
    }
}

/// A directive resolved.
pub open spec fn resolved(w: WorldView, id: DirectiveId, state: ResolutionView) -> WorldView {
    match directive_at(w.directives, id, 0) {
        Some(i) => WorldView {
            directives: w.directives.update(i, DirectiveView { state, ..w.directives[i] }),
            ..w
        },
        None => w,
    }
}

/// The world after the cited directive, if any, has been acted on.
pub open spec fn fulfilled(w: WorldView, cite: Option<DirectiveId>, by: AgentId) -> WorldView {
    match cite {
        None => w,
        Some(id) => resolved(w, id, ResolutionView::Fulfilled { by }).log(
            EventSource::Agent(by),
            KindView::DirectiveFulfilled { directive: id, by },
        ),
    }
}

/// Resolves a directive.
fn resolve(world: &mut World, id: DirectiveId, state: DirectiveState)
    ensures
        final(world)@ == resolved(old(world)@, id, state@),
        old(world).valid() ==> final(world).valid(),
{
    let ghost to = state@;
    if let Some(i) = find_directive(world, id) {
        world.directives[i].state = state;
    }
    assert(world@ =~= resolved(old(world)@, id, to));
}

/// Marks the cited directive, if any, as acted on.
pub fn fulfill_cite(world: &mut World, cite: Option<DirectiveId>, by: &AgentId)
    requires
        old(world).valid(),
        old(world)@.log_room(1, 0, 0),
    ensures
        final(world).valid(),
        final(world)@ == fulfilled(old(world)@, cite, *by),
{
    if let Some(id) = cite {
        resolve(world, id, DirectiveState::Fulfilled { by: *by });
        world.append_event(
            EventSource::Agent(*by),
            EventKind::DirectiveFulfilled { directive: id, by: *by },
        );
    }
}

/// The world after a directive has been issued.
pub open spec fn issued(
    w: WorldView,
    from: AgentId,
    tier: DirectiveTier,
    kind: DirectiveKind,
    args: JsonView,
    state: ResolutionView,
) -> WorldView {
    let id = DirectiveId(w.next_directive);
    WorldView {
        next_directive: (w.next_directive + 1) as u64,
        directives: w.directives.push(DirectiveView { id, tier, kind, args, from, state }),
        ..w
    }.log(
        EventSource::Agent(from),
        KindView::DirectiveIssued { directive: id, tier, kind, args },
    )
}

/// Issues a directive.
fn issue_directive(
    world: &mut World,
    from: &AgentId,
    tier: DirectiveTier,
    kind: DirectiveKind,
    args: Json,
    state: DirectiveState,
) -> (id: DirectiveId)
    requires
        old(world).valid(),
        old(world)@.room(1, 0, 0),
    ensures
        final(world).valid(),
        id == DirectiveId(old(world)@.next_directive),
        final(world)@ == issued(old(world)@, *from, tier, kind, args@, state@),
{
    let id = DirectiveId(world.next_directive);
    world.next_directive = world.next_directive + 1;
    let ghost before = directive_views(world.directives@);
    let copy = args.clone();
    let directive = Directive { id, tier, kind, args, from: *from, state };
    let ghost added = directive@;
    world.directives.push(directive);
    assert(directive_views(world.directives@) =~= before.push(added));
    assert(world@ =~= (WorldView {
        next_directive: (old(world)@.next_directive + 1) as u64,
        directives: old(world)@.directives.push(added),
        ..old(world)@
    }));
    world.append_event(
        EventSource::Agent(*from),
        EventKind::DirectiveIssued { directive: id, tier, kind, args: copy },
    );
    id
}

// ---------------------------------------------------------------------------
// Claiming, completing and releasing.
// ---------------------------------------------------------------------------

/// A team agent on a new task, with a clean window.
pub open spec fn assigned(w: WorldView, agent: AgentId, task: TaskId) -> WorldView {
    match slot_at(w.team, agent, 0) {
        Some(i) => w.with_slot(
            i,
            SlotView { state: AgentState::Working { task }, window: Seq::empty(), ..w.team[i] },
        ),
        None => w,
    }
}

/// What `claim_task` does.
pub open spec fn claim_step(w: WorldView, caller: AgentId, id: TaskId) -> Step {
    match w.board.claim_refusal(caller, id) {
        Some(r) => (w, OutcomeView::refusal(r)),
        None => (
            assigned(
                WorldView { board: w.board.claimed(caller, id), ..w },
                caller,
                id,
            ).log(
                EventSource::Agent(caller),
                KindView::TaskClaimed { task: id, team: w.board.tasks[w.board.at(id)->0].team },
            ),
            yes(obj1("task"@, num(id.0))),
        ),
    }
}

/// A team agent takes an open task.
pub fn handle_claim(caller: &AgentId, args: ClaimTaskArgs, world: &mut World) -> (r: ToolOutcome)
    requires
        old(world).valid(),
        old(world)@.room(1, 0, 0),
    ensures
        final(world).valid(),
        (final(world)@, r@) == claim_step(old(world)@, *caller, TaskId(args.task)),
{
    let id = TaskId(args.task);
    let team = match world.board.task(id) {
        Some(task) => crate::board::copy_tag(&task.team),
        None => None,
    };
    match world.board.claim(caller, id) {
        Ok(()) => {
            if let Some(i) = world.find_slot(*caller) {
                world.team[i].state = AgentState::Working { task: id };
                world.team[i].window = no_lines();
            }
            assert(world@ =~= assigned(
                WorldView { board: old(world)@.board.claimed(*caller, id), ..old(world)@ },
                *caller,
                id,
            ));
            world.append_event(
                EventSource::Agent(*caller),
                EventKind::TaskClaimed { task: id, team },
            );
            ToolOutcome::ok(object1("task", Json::number(id.0)))
        },
        Err(rejection) => {
            assert(world@ =~= old(world)@);
            ToolOutcome::from_rejection(rejection)
        },
    }
}

/// The world with one more knowledge entry.
pub open spec fn learned(
    w: WorldView,
    text: Seq<char>,
    author: AgentId,
    kind: KnowledgeKind,
) -> WorldView {
    WorldView {
        store: w.store.push(
            EntryView {
                id: KnowledgeEntryId((w.store.len() + 1) as u64),
                text,
                author,
                source_event: EventId(w.next_event),
                kind,
            },
        ),
        ..w
    }
}

/// The refusal when a text could not be embedded.
pub open spec fn ingest_failed(error: Seq<char>) -> OutcomeView {
    no("internal_error"@, "knowledge ingest failed: "@ + error)
}

/// Why embedding failed, if it did.
pub open spec fn fault(embedded: Option<KnowledgeError>) -> Option<Seq<char>> {
    match embedded {
        Some(e) => Some(e.text()),
        None => None,
    }
}

/// Adds a knowledge entry.
fn learn(world: &mut World, text: &str, author: AgentId, kind: KnowledgeKind) -> (id:
    KnowledgeEntryId)
    requires
        old(world).valid(),
        old(world)@.store.len() < u64::MAX,
    ensures
        final(world).valid(),
        final(world)@ == learned(old(world)@, text@, author, kind),
        id == KnowledgeEntryId((old(world)@.store.len() + 1) as u64),
{
    let planned = world.planned_event();
    let id = world.store.insert(text, author, planned, kind);
    assert(world@ =~= learned(old(world)@, text@, author, kind));
    id
}

/// What `complete_task` does. The claim is checked before anything is embedded.
pub open spec fn complete_step(
    w: WorldView,
    caller: AgentId,
    result: Seq<char>,
    failure: Option<Seq<char>>,
) -> Step {
    match w.board.claim_of(caller) {
        None => (w, OutcomeView::refusal(BoardView::no_claim(caller, "complete"@))),
        Some(i) => match failure {
            Some(error) => (w, ingest_failed(error)),
            None => {
                let task = w.board.tasks[i].id;
                let entry = KnowledgeEntryId((w.store.len() + 1) as u64);
                let known = learned(w, result, caller, KnowledgeKind::TaskCompletion);
                let done = WorldView {
                    board: w.board.completed(caller, result, entry),
                    ..known
                }.with_state(caller, AgentState::Idle);
                (
                    done.log(
                        EventSource::Agent(caller),
                        KindView::TaskCompleted { task, result, result_ref: entry },
                    ),
                    yes(obj2("result_ref"@, num(entry.0), "task"@, num(task.0))),
                )
            },
        },
    }
}

/// A team agent completes its task.
pub fn handle_complete(
    caller: &AgentId,
    args: CompleteTaskArgs,
    embedded: Option<KnowledgeError>,
    world: &mut World,
) -> (r: ToolOutcome)
    requires
        old(world).valid(),
        old(world)@.room(1, byte_len(args.result@), 0),
    ensures
        final(world).valid(),
        (final(world)@, r@) == complete_step(
            old(world)@,
            *caller,
            args.result@,
            fault(embedded),
        ),
{
    if world.board.claimed_by(caller).is_none() {
        let mut message = caller.as_str();
        message.push_str(" has no claimed task to ");
        message.push_str("complete");
        return ToolOutcome::rejected("task_not_claimed", message);
    }
    if let Some(error) = embedded {
        return refuse2("internal_error", "knowledge ingest failed: ", error.message().as_str());
    }
    let entry = learn(world, args.result.as_str(), *caller, KnowledgeKind::TaskCompletion);
    let ghost known = world@;
    match world.board.complete(caller, args.result.clone(), entry) {
        Ok(task) => {
            assert(world@ =~= (WorldView {
                board: known.board.completed(*caller, args.result@, entry),
                ..known
            }));
            world.set_state(*caller, AgentState::Idle);
            world.append_event(
                EventSource::Agent(*caller),
                EventKind::TaskCompleted { task, result: args.result, result_ref: entry },
            );
            ToolOutcome::ok(
                object2("result_ref", Json::number(entry.0), "task", Json::number(task.0)),
            )
        },
        Err(rejection) => ToolOutcome::from_rejection(rejection),
    }
}

/// What `release_task` does.
pub open spec fn release_step(w: WorldView, caller: AgentId, reason: Option<Seq<char>>) -> Step {
    match w.board.claim_of(caller) {
        None => (w, OutcomeView::refusal(BoardView::no_claim(caller, "release"@))),
        Some(i) => {
            let task = w.board.tasks[i].id;
            (
                WorldView { board: w.board.released(caller), ..w }.with_state(
                    caller,
                    AgentState::Idle,
                ).log(EventSource::Agent(caller), KindView::TaskReleased { task, reason }),
                yes(obj1("task"@, num(task.0))),
            )
        },
    }
}

/// A team agent gives its task back.
pub fn handle_release(caller: &AgentId, args: ReleaseTaskArgs, world: &mut World) -> (r: ToolOutcome)
    requires
        old(world).valid(),
        old(world)@.room(1, 0, 0),
    ensures
        final(world).valid(),
        (final(world)@, r@) == release_step(old(world)@, *caller, text_view(args.reason)),
{
    match world.board.release(caller) {
        Ok(task) => {
            assert(world@ =~= (WorldView {
                board: old(world)@.board.released(*caller),
                ..old(world)@
            }));
            world.set_state(*caller, AgentState::Idle);
            world.append_event(
                EventSource::Agent(*caller),
                EventKind::TaskReleased { task, reason: args.reason },
            );
            ToolOutcome::ok(object1("task", Json::number(task.0)))
        },
        Err(rejection) => {
            assert(world@ =~= old(world)@);
            ToolOutcome::from_rejection(rejection)
        },
    }
}

// ---------------------------------------------------------------------------
// Messages and knowledge.
// ---------------------------------------------------------------------------

/// The address that the arguments give, or why they give none: exactly one form must be set, a
/// handle must name the orchestrator or a team agent, and a tag a team that has not been dissolved.
pub open spec fn address_of(
    w: WorldView,
    to: Option<Seq<char>>,
    team: Option<Seq<char>>,
    broadcast: Option<bool>,
) -> Result<AddressView, OutcomeView> {
    let all = broadcast == Some(true);
    if (to is Some && (team is Some || all)) || (team is Some && all) || (to is None && team is None
        && !all) {
        Err(no("invalid_address"@, "exactly one of to / team / broadcast:true must be set"@))
    } else if to is Some {
        match handle_agent(to->0) {
            None => Err(no("unknown_agent"@, debug_quote(to->0) + " is not an agent handle"@)),
            Some(agent) => if agent is Meta {
                Err(
                    no(
                        "invalid_address"@,
                        "meta-agents observe via events and receive no messages"@,
                    ),
                )
            } else if agent is Team && !w.has_team_agent(agent) {
                Err(no("unknown_agent"@, agent.handle() + " is not a pool team agent"@))
            } else {
                Ok(AddressView::Direct { to: agent })
            },
        }
    } else if team is Some {
        if !is_tag(team->0) {
            Err(no("unknown_team"@, debug_quote(team->0) + " is not a team id"@))
        } else if !w.board.live_team(team->0) {
            Err(no("unknown_team"@, "team "@ + team->0 + " is not a live team"@))
        } else {
            Ok(AddressView::Team { team: team->0 })
        }
    } else {
        Ok(AddressView::Broadcast)
    }
}

/// Finds the address that the arguments give.
pub fn resolve_address(world: &World, args: &PostMessageArgs) -> (r: Result<Address, ToolOutcome>)
    ensures
        match r {
            Ok(address) => address_of(
                world@,
                text_view(args.to),
                text_view(args.team),
                args.broadcast,
            ) == Ok::<AddressView, OutcomeView>(address@),
            Err(outcome) => address_of(
                world@,
                text_view(args.to),
                text_view(args.team),
                args.broadcast,
            ) == Err::<AddressView, OutcomeView>(outcome@),
        },
{
    let all = match args.broadcast {
        Some(b) => b,
        None => false,
    };
    let direct = args.to.is_some();
    let scoped = args.team.is_some();
    if (direct && (scoped || all)) || (scoped && all) || (!direct && !scoped && !all) {
        return Err(
            ToolOutcome::rejected(
                "invalid_address",
                "exactly one of to / team / broadcast:true must be set".to_owned(),
            ),
        );
    }
    if let Some(to) = &args.to {
        return match AgentId::parse(to.as_str()) {
            None => Err(
                refuse2(
                    "unknown_agent",
                    debug_quoted(to.as_str()).as_str(),
                    " is not an agent handle",
                ),
            ),
            Some(agent) => match agent {
                AgentId::Meta(_) => Err(
                    ToolOutcome::rejected(
                        "invalid_address",
                        "meta-agents observe via events and receive no messages".to_owned(),
                    ),
                ),
                AgentId::Team(_) => if world.is_team_agent(&agent) {
                    Ok(Address::Direct { to: agent })
                } else {
                    Err(
                        refuse2(
                            "unknown_agent",
                            agent.as_str().as_str(),
                            " is not a pool team agent",
                        ),
                    )
                },
                AgentId::Orchestrator => Ok(Address::Direct { to: agent }),
            },
        };
    }
    if let Some(tag) = &args.team {
        return match TeamId::parse(tag.as_str()) {
            Err(_) => Err(
                refuse2("unknown_team", debug_quoted(tag.as_str()).as_str(), " is not a team id"),
            ),
            Ok(team) => {
                let live = match world.board.team(&team) {
                    Some(t) => !t.dissolved,
                    None => false,
                };
                if live {
                    Ok(Address::Team { team })
                } else {
                    Err(refuse3("unknown_team", "team ", team.as_str(), " is not a live team"))
                }
            },
        };
    }
    Ok(Address::Broadcast)
}

/// The world after a message has been accepted.
pub open spec fn posted(
    w: WorldView,
    caller: AgentId,
    address: AddressView,
    body: Seq<char>,
) -> WorldView {
    let id = MessageId(w.next_message);
    let entry = KnowledgeEntryId((w.store.len() + 1) as u64);
    let known = learned(w, body, caller, KnowledgeKind::Message);
    let told = WorldView {
        next_message: (w.next_message + 1) as u64,
        messages: w.messages.push(
            MessageView { id, sender: caller, address, body, knowledge_ref: entry },
        ),
        ..known
    }.log(
        EventSource::Agent(caller),
        KindView::MessageSent { message: id, address, body, knowledge_ref: entry },
    );
    WorldView { mail: mailed(w.mail, w.recipients(caller, address), id), ..told }
}

/// What `post_message` does.
pub open spec fn post_step(
    w: WorldView,
    caller: AgentId,
    to: Option<Seq<char>>,
    team: Option<Seq<char>>,
    broadcast: Option<bool>,
    body: Seq<char>,
    failure: Option<Seq<char>>,
) -> Step {
    match address_of(w, to, team, broadcast) {
        Err(outcome) => (w, outcome),
        Ok(address) => match failure {
            Some(error) => (w, ingest_failed(error)),
            None => (
                posted(w, caller, address, body),
                yes(obj1("message"@, num(w.next_message))),
            ),
        },
    }
}

/// An agent sends a message.
pub fn handle_post_message(
    caller: &AgentId,
    args: PostMessageArgs,
    embedded: Option<KnowledgeError>,
    world: &mut World,
) -> (r: ToolOutcome)
    requires
        old(world).valid(),
        old(world)@.room(1, byte_len(args.body@), 0),
    ensures
        final(world).valid(),
        (final(world)@, r@) == post_step(
            old(world)@,
            *caller,
            text_view(args.to),
            text_view(args.team),
            args.broadcast,
            args.body@,
            fault(embedded),
        ),
{
    let address = match resolve_address(world, &args) {
        Ok(address) => address,
        Err(outcome) => {
            return outcome;
        },
    };
    if let Some(error) = embedded {
        return refuse2("internal_error", "knowledge ingest failed: ", error.message().as_str());
    }
    let recipients = world.recipients_for(caller, &address);
    let id = MessageId(world.next_message);
    let ghost w = world@;
    let ghost whom = address@;
    let entry = learn(world, args.body.as_str(), *caller, KnowledgeKind::Message);
    let ghost known = world@;
    world.next_message = world.next_message + 1;
    let message = Message {
        id,
        sender: *caller,
        address: address.clone(),
        body: args.body.clone(),
        knowledge_ref: entry,
    };
    let ghost added = message@;
    let ghost before = crate::world::message_views(world.messages@);
    world.messages.push(message);
    assert(crate::world::message_views(world.messages@) =~= before.push(added));
    assert(world@ =~= (WorldView {
        next_message: (w.next_message + 1) as u64,
        messages: w.messages.push(added),
        ..known
    }));
    world.append_event(
        EventSource::Agent(*caller),
        EventKind::MessageSent { message: id, address, body: args.body, knowledge_ref: entry },
    );
    let ghost told = world@;
    world.mailboxes.push_for_recipients(&recipients, id);
    assert(world@ =~= (WorldView { mail: mailed(w.mail, recipients@, id), ..told }));
    ToolOutcome::ok(object1("message", Json::number(id.0)))
}

/// What `write_knowledge` does.
pub open spec fn write_step(
    w: WorldView,
    caller: AgentId,
    text: Seq<char>,
    failure: Option<Seq<char>>,
) -> Step {
    match failure {
        Some(error) => (w, ingest_failed(error)),
        None => {
            let entry = KnowledgeEntryId((w.store.len() + 1) as u64);
            (
                learned(w, text, caller, KnowledgeKind::Note).log(
                    EventSource::Agent(caller),
                    KindView::KnowledgeWritten { entry, text },
                ),
                yes(obj1("entry"@, num(entry.0))),
            )
        },
    }
}

/// An agent writes a note.
pub fn handle_write_knowledge(
    caller: &AgentId,
    args: WriteKnowledgeArgs,
    embedded: Option<KnowledgeError>,
    world: &mut World,
) -> (r: ToolOutcome)
    requires
        old(world).valid(),
        old(world)@.room(1, byte_len(args.text@), 0),
    ensures
        final(world).valid(),
        (final(world)@, r@) == write_step(old(world)@, *caller, args.text@, fault(embedded)),
{
    if let Some(error) = embedded {
        return refuse2("internal_error", "knowledge ingest failed: ", error.message().as_str());
    }
    let entry = learn(world, args.text.as_str(), *caller, KnowledgeKind::Note);
    world.append_event(
        EventSource::Agent(*caller),
        EventKind::KnowledgeWritten { entry, text: args.text },
    );
    ToolOutcome::ok(object1("entry", Json::number(entry.0)))
}

/// How many hits a search asks for: three unless told otherwise, and from one to ten.
pub open spec fn hit_count(k: Option<u32>) -> usize {
    match k {
        None => 3,
        Some(n) => if n < 1 {
            1
        } else if n > 10 {
            10
        } else {
            n as usize
        },
    }
}

/// How many hits a search asks for.
pub fn search_size(args: &SearchKnowledgeArgs) -> (k: usize)
    ensures
        k == hit_count(args.k),
{
    match args.k {
        None => 3,
        Some(n) => if n < 1 {
            1
        } else if n > 10 {
            10
        } else {
            n as usize
        },
    }
}

/// A hit as a JSON value.
pub open spec fn hit_json(hit: ScoredEntry) -> JsonView {
    JsonView::Object(
        seq![
            ("author"@, JsonView::Text(hit.entry.author.handle())),
            ("entry"@, num(hit.entry.id.0)),
            ("kind"@, JsonView::Text(hit.entry.kind.name())),
            ("score"@, JsonView::Number { text: hit.rounded@, whole: None }),
            ("text"@, JsonView::Text(hit.entry.text@)),
        ],
    )
}

/// Hits as JSON values.
pub open spec fn hits_json(hits: Seq<ScoredEntry>) -> Seq<JsonView> {
    Seq::new(hits.len(), |i: int| hit_json(hits[i]))
}

/// What `search_knowledge` comes back with.
pub open spec fn search_view(hits: Result<Vec<ScoredEntry>, KnowledgeError>) -> OutcomeView {
    match hits {
        Ok(list) => yes(obj1("hits"@, JsonView::Array(hits_json(list@)))),
        Err(e) => no("internal_error"@, "search failed: "@ + e.text()),
    }
}

/// A hit as a JSON value.
fn hit_value(hit: &ScoredEntry) -> (j: Json)
    ensures
        j@ == hit_json(*hit),
{
    let mut fields: Vec<(String, Json)> = Vec::new();
    fields.push(crate::json::field("author", handle_json(hit.entry.author)));
    fields.push(crate::json::field("entry", Json::number(hit.entry.id.0)));
    fields.push(crate::json::field("kind", Json::string(hit.entry.kind.as_str())));
    fields.push(
        crate::json::field("score", Json::Number { text: hit.rounded.clone(), whole: None }),
    );
    fields.push(crate::json::field("text", Json::string(hit.entry.text.as_str())));
    proof {
        crate::json::lemma_fields(fields@);
        assert(crate::json::fields_view(fields@) =~= hit_json(*hit)->Object_0);
    }
    Json::object(fields)
}

/// An agent searches the knowledge store.
pub fn handle_search_knowledge(hits: Result<Vec<ScoredEntry>, KnowledgeError>) -> (r: ToolOutcome)
    ensures
        r@ == search_view(hits),
{
    match hits {
        Ok(list) => {
            let mut values: Vec<Json> = Vec::new();
            let mut i: usize = 0;
            while i < list.len()
                invariant
                    0 <= i <= list.len(),
                    values.len() == i,
                    forall|k: int| 0 <= k < i ==> (#[trigger] values@[k])@ == hit_json(list@[k]),
                decreases list.len() - i,
            {
                values.push(hit_value(&list[i]));
                i = i + 1;
            }
            proof {
                crate::json::lemma_items(values@);
                assert(crate::json::items_view(values@) =~= hits_json(list@));
            }
            ToolOutcome::ok(object1("hits", Json::array(values)))
        },
        Err(e) => refuse2("internal_error", "search failed: ", e.message().as_str()),
    }
}

// ---------------------------------------------------------------------------
// Tasks and teams.
// ---------------------------------------------------------------------------

/// What `create_task` does.
pub open spec fn create_step(
    w: WorldView,
    caller: AgentId,
    title: Seq<char>,
    description: Seq<char>,
    team: Option<Seq<char>>,
) -> Step {
    let id = TaskId(w.next_task);
    if team is Some && !is_tag(team->0) {
        (w, no("unknown_team"@, debug_quote(team->0) + " is not a team id"@))
    } else {
        match w.board.create_refusal(id, team) {
            Some(r) => (w, OutcomeView::refusal(r)),
            None => (
                WorldView {
                    board: w.board.with_task(
                        TaskView {
                            id,
                            title,
                            description,
                            created_by: caller,
                            origin_event: EventId(w.next_event),
                            team,
                            state: StateView::Open,
                        },
                    ),
                    next_task: (w.next_task + 1) as u64,
                    ..w
                }.log(
                    EventSource::Agent(caller),
                    KindView::TaskCreated { task: id, title, description, team },
                ),
                yes(obj1("task"@, num(id.0))),
            ),
        }
    }
}

/// The orchestrator creates a task.
pub fn handle_create_task(caller: &AgentId, args: CreateTaskArgs, world: &mut World) -> (r:
    ToolOutcome)
    requires
        old(world).valid(),
        old(world)@.room(1, 0, 0),
    ensures
        final(world).valid(),
        (final(world)@, r@) == create_step(
            old(world)@,
            *caller,
            args.title@,
            args.description@,
            text_view(args.team),
        ),
{
    let team = match &args.team {
        Some(tag) => match TeamId::parse(tag.as_str()) {
            Ok(team) => Some(team),
            Err(_) => {
                return refuse2(
                    "unknown_team",
                    debug_quoted(tag.as_str()).as_str(),
                    " is not a team id",
                );
            },
        },
        None => None,
    };
    assert(tag_view(team) == text_view(args.team));
    let id = TaskId(world.next_task);
    let planned = world.planned_event();
    let tag = crate::board::copy_tag(&team);
    match world.board.create_task(
        id,
        args.title.clone(),
        args.description.clone(),
        *caller,
        planned,
        tag,
    ) {
        Ok(()) => {
            world.next_task = world.next_task + 1;
            assert(world@ =~= (WorldView {
                board: old(world)@.board.with_task(
                    TaskView {
                        id,
                        title: args.title@,
                        description: args.description@,
                        created_by: *caller,
                        origin_event: planned,
                        team: tag_view(team),
                        state: StateView::Open,
                    },
                ),
                next_task: (old(world)@.next_task + 1) as u64,
                ..old(world)@
            }));
            world.append_event(
                EventSource::Agent(*caller),
                EventKind::TaskCreated {
                    task: id,
                    title: args.title,
                    description: args.description,
                    team,
                },
            );
            ToolOutcome::ok(object1("task", Json::number(id.0)))
        },
        Err(rejection) => {
            assert(world@ =~= old(world)@);
            ToolOutcome::from_rejection(rejection)
        },
    }
}

/// What `cancel_task` does.
pub open spec fn cancel_step(w: WorldView, caller: AgentId, id: TaskId, reason: Seq<char>) -> Step {
    match w.board.cancel_refusal(id) {
        Some(r) => (w, OutcomeView::refusal(r)),
        None => (
            WorldView { board: w.board.cancelled(id, reason), ..w }.log(
                EventSource::Agent(caller),
                KindView::TaskCancelled { task: id, reason },
            ),
            yes(obj1("task"@, num(id.0))),
        ),
    }
}

/// The orchestrator cancels a task.
pub fn handle_cancel_task(caller: &AgentId, args: CancelTaskArgs, world: &mut World) -> (r:
    ToolOutcome)
    requires
        old(world).valid(),
        old(world)@.room(1, 0, 0),
    ensures
        final(world).valid(),
        (final(world)@, r@) == cancel_step(
            old(world)@,
            *caller,
            TaskId(args.task),
            args.reason@,
        ),
{
    let id = TaskId(args.task);
    match world.board.cancel(id, args.reason.clone()) {
        Ok(()) => {
            assert(world@ =~= (WorldView {
                board: old(world)@.board.cancelled(id, args.reason@),
                ..old(world)@
            }));
            world.append_event(
                EventSource::Agent(*caller),
                EventKind::TaskCancelled { task: id, reason: args.reason },
            );
            ToolOutcome::ok(object1("task", Json::number(id.0)))
        },
        Err(rejection) => {
            assert(world@ =~= old(world)@);
            ToolOutcome::from_rejection(rejection)
        },
    }
}

/// A team agent that worked on the task is idle; one that sleeps goes on sleeping.
pub open spec fn relieved(w: WorldView, agent: AgentId, task: TaskId) -> WorldView {
    match slot_at(w.team, agent, 0) {
        Some(i) => if w.team[i].state == (AgentState::Working { task }) {
            w.with_state(agent, AgentState::Idle)
        } else {
            w
        },
        None => w,
    }
}

/// What `unassign_task` does.
pub open spec fn unassign_step(
    w: WorldView,
    caller: AgentId,
    id: TaskId,
    reason: Option<Seq<char>>,
    in_response_to: Option<u64>,
) -> Step {
    match citation(w, in_response_to) {
        Err(outcome) => (w, outcome),
        Ok(cite) => match w.board.unassign_refusal(id) {
            Some(r) => (w, OutcomeView::refusal(r)),
            None => {
                let prev = w.board.tasks[w.board.at(id)->0].state->Claimed_by;
                (
                    fulfilled(
                        relieved(
                            WorldView { board: w.board.unassigned(id), ..w },
                            prev,
                            id,
                        ).log(
                            EventSource::Agent(caller),
                            KindView::TaskUnassigned {
                                task: id,
                                prev_claimant: prev,
                                reason,
                                via_directive: cite,
                            },
                        ),
                        cite,
                        caller,
                    ),
                    yes(obj2("prev_claimant"@, JsonView::Text(prev.handle()), "task"@, num(id.0))),
                )
            },
        },
    }
}

/// The orchestrator takes a task from its claimant.
pub fn handle_unassign(caller: &AgentId, args: UnassignTaskArgs, world: &mut World) -> (r:
    ToolOutcome)
    requires
        old(world).valid(),
        old(world)@.room(2, 0, 0),
    ensures
        final(world).valid(),
        (final(world)@, r@) == unassign_step(
            old(world)@,
            *caller,
            TaskId(args.task),
            text_view(args.reason),
            args.in_response_to,
        ),
{
    let cite = match validate_cite(world, args.in_response_to) {
        Ok(cite) => cite,
        Err(outcome) => {
            return outcome;
        },
    };
    let id = TaskId(args.task);
    match world.board.unassign(id) {
        Ok(prev) => {
            let ghost freed = WorldView {
                board: old(world)@.board.unassigned(id),
                ..old(world)@
            };
            assert(world@ =~= freed);
            if let Some(i) = world.find_slot(prev) {
                if world.team[i].state == (AgentState::Working { task: id }) {
                    world.set_state(prev, AgentState::Idle);
                }
            }
            assert(world@ == relieved(freed, prev, id));
            proof {
                lemma_log(
                    world@,
                    EventSource::Agent(*caller),
                    KindView::TaskUnassigned {
                        task: id,
                        prev_claimant: prev,
                        reason: text_view(args.reason),
                        via_directive: cite,
                    },
                    1,
                    0,
                    0,
                );
            }
            world.append_event(
                EventSource::Agent(*caller),
                EventKind::TaskUnassigned {
                    task: id,
                    prev_claimant: prev,
                    reason: args.reason,
                    via_directive: cite,
                },
            );
            fulfill_cite(world, cite, caller);
            ToolOutcome::ok(
                object2("prev_claimant", handle_json(prev), "task", Json::number(id.0)),
            )
        },
        Err(rejection) => {
            assert(world@ =~= old(world)@);
            ToolOutcome::from_rejection(rejection)
        },
    }
}

/// What `form_team` does.
pub open spec fn form_step(
    w: WorldView,
    caller: AgentId,
    team: Seq<char>,
    handles: Seq<Seq<char>>,
) -> Step {
    if !is_tag(team) {
        (w, no("unknown_team"@, debug_quote(team) + " is not a team id"@))
    } else {
        match pool_agents(w, handles) {
            Err(outcome) => (w, outcome),
            Ok(members) => match w.board.form_refusal(team) {
                Some(r) => (w, OutcomeView::refusal(r)),
                None => (
                    WorldView { board: w.board.formed(team, members), ..w }.log(
                        EventSource::Agent(caller),
                        KindView::TeamFormed { team, members },
                    ),
                    yes(obj1("team"@, JsonView::Text(team))),
                ),
            },
        }
    }
}

/// The orchestrator forms a team.
pub fn handle_form_team(caller: &AgentId, args: FormTeamArgs, world: &mut World) -> (r: ToolOutcome)
    requires
        old(world).valid(),
        old(world)@.room(1, 0, 0),
    ensures
        final(world).valid(),
        (final(world)@, r@) == form_step(
            old(world)@,
            *caller,
            args.team@,
            texts(args.members@),
        ),
{
    let team = match TeamId::parse(args.team.as_str()) {
        Ok(team) => team,
        Err(_) => {
            return refuse2(
                "unknown_team",
                debug_quoted(args.team.as_str()).as_str(),
                " is not a team id",
            );
        },
    };
    let members = match parse_members(world, &args.members) {
        Ok(members) => members,
        Err(outcome) => {
            return outcome;
        },
    };
    match world.board.form_team(team.clone(), copy_agents(&members)) {
        Ok(()) => {
            assert(world@ =~= (WorldView {
                board: old(world)@.board.formed(team@, members@),
                ..old(world)@
            }));
            let name = team.as_str().to_owned();
            world.append_event(
                EventSource::Agent(*caller),
                EventKind::TeamFormed { team, members },
            );
            ToolOutcome::ok(object1("team", Json::Text(name)))
        },
        Err(rejection) => {
            assert(world@ =~= old(world)@);
            ToolOutcome::from_rejection(rejection)
        },
    }
}

/// What `dissolve_team` does.
pub open spec fn dissolve_step(w: WorldView, caller: AgentId, team: Seq<char>) -> Step {
    if !is_tag(team) {
        (w, no("unknown_team"@, debug_quote(team) + " is not a team id"@))
    } else {
        match w.board.dissolve_refusal(team) {
            Some(r) => (w, OutcomeView::refusal(r)),
            None => (
                WorldView { board: w.board.dissolved(team), ..w }.log(
                    EventSource::Agent(caller),
                    KindView::TeamDissolved { team },
                ),
                yes(obj1("team"@, JsonView::Text(team))),
            ),
        }
    }
}

/// The orchestrator dissolves a team.
pub fn handle_dissolve_team(caller: &AgentId, args: DissolveTeamArgs, world: &mut World) -> (r:
    ToolOutcome)
    requires
        old(world).valid(),
        old(world)@.room(1, 0, 0),
    ensures
        final(world).valid(),
        (final(world)@, r@) == dissolve_step(old(world)@, *caller, args.team@),
{
    let team = match TeamId::parse(args.team.as_str()) {
        Ok(team) => team,
        Err(_) => {
            return refuse2(
                "unknown_team",
                debug_quoted(args.team.as_str()).as_str(),
                " is not a team id",
            );
        },
    };
    match world.board.dissolve_team(&team) {
        Ok(()) => {
            assert(world@ =~= (WorldView {
                board: old(world)@.board.dissolved(team@),
                ..old(world)@
            }));
            let name = team.as_str().to_owned();
            world.append_event(EventSource::Agent(*caller), EventKind::TeamDissolved { team });
            ToolOutcome::ok(object1("team", Json::Text(name)))
        },
        Err(rejection) => {
            assert(world@ =~= old(world)@);
            ToolOutcome::from_rejection(rejection)
        },
    }
}

/// What `set_team_members` does.
pub open spec fn members_step(
    w: WorldView,
    caller: AgentId,
    team: Seq<char>,
    handles: Seq<Seq<char>>,
    in_response_to: Option<u64>,
) -> Step {
    match citation(w, in_response_to) {
        Err(outcome) => (w, outcome),
        Ok(cite) => if !is_tag(team) {
            (w, no("unknown_team"@, debug_quote(team) + " is not a team id"@))
        } else {
            match pool_agents(w, handles) {
                Err(outcome) => (w, outcome),
                Ok(members) => match w.board.members_refusal(team) {
                    Some(r) => (w, OutcomeView::refusal(r)),
                    None => {
                        let former = w.board.teams[w.board.team_of(team)->0].members;
                        (
                            fulfilled(
                                WorldView { board: w.board.reteamed(team, members), ..w }.log(
                                    EventSource::Agent(caller),
                                    KindView::TeamMembersSet {
                                        team,
                                        members,
                                        added: missing_from(members, former),
                                        removed: missing_from(former, members),
                                        via_directive: cite,
                                    },
                                ),
                                cite,
                                caller,
                            ),
                            yes(obj1("team"@, JsonView::Text(team))),
                        )
                    },
                },
            }
        },
    }
}

/// The orchestrator replaces a team's members.
pub fn handle_set_team_members(caller: &AgentId, args: SetTeamMembersArgs, world: &mut World) -> (r:
    ToolOutcome)
    requires
        old(world).valid(),
        old(world)@.room(2, 0, 0),
    ensures
        final(world).valid(),
        (final(world)@, r@) == members_step(
            old(world)@,
            *caller,
            args.team@,
            texts(args.members@),
            args.in_response_to,
        ),
{
    let cite = match validate_cite(world, args.in_response_to) {
        Ok(cite) => cite,
        Err(outcome) => {
            return outcome;
        },
    };
    let team = match TeamId::parse(args.team.as_str()) {
        Ok(team) => team,
        Err(_) => {
            return refuse2(
                "unknown_team",
                debug_quoted(args.team.as_str()).as_str(),
                " is not a team id",
            );
        },
    };
    let members = match parse_members(world, &args.members) {
        Ok(members) => members,
        Err(outcome) => {
            return outcome;
        },
    };
    match world.board.set_team_members(&team, copy_agents(&members)) {
        Ok(delta) => {
            assert(world@ =~= (WorldView {
                board: old(world)@.board.reteamed(team@, members@),
                ..old(world)@
            }));
            let name = team.as_str().to_owned();
            let event = EventKind::TeamMembersSet {
                team,
                members,
                added: delta.added,
                removed: delta.removed,
                via_directive: cite,
            };
            proof {
                lemma_log(world@, EventSource::Agent(*caller), event@, 1, 0, 0);
            }
            world.append_event(EventSource::Agent(*caller), event);
            fulfill_cite(world, cite, caller);
            ToolOutcome::ok(object1("team", Json::Text(name)))
        },
        Err(rejection) => {
            assert(world@ =~= old(world)@);
            ToolOutcome::from_rejection(rejection)
        },
    }
}

// ---------------------------------------------------------------------------
// Specialties, sleeping and waking.
// ---------------------------------------------------------------------------

/// A team agent with another specialty and a clean window; its call numbers go on.
pub open spec fn respecialized(w: WorldView, i: int, profile: ProfileView) -> WorldView {
    w.with_slot(
        i,
        SlotView {
            profile,
            window: Seq::empty(),
            channel: ChannelView { specialty: profile.slug, ..w.team[i].channel },
            ..w.team[i]
        },
    )
}

/// What `respecialize` does.
pub open spec fn respecialize_step(
    w: WorldView,
    caller: AgentId,
    handle: Seq<char>,
    profile: ProfileView,
    in_response_to: Option<u64>,
) -> Step {
    match citation(w, in_response_to) {
        Err(outcome) => (w, outcome),
        Ok(cite) => match pool_agent(w, handle) {
            Err(outcome) => (w, outcome),
            Ok(agent) => if !is_slug(profile.slug) {
                (
                    w,
                    no(
                        "invalid_slug"@,
                        debug_quote(profile.slug) + " is not a valid specialty slug"@,
                    ),
                )
            } else {
                let i = slot_at(w.team, agent, 0)->0;
                let slot = w.team[i];
                if !(slot.state is Idle) || slot.in_flight {
                    (
                        w,
                        no(
                            "not_idle"@,
                            agent.handle()
                                + " is not Idle and settled — unassign or park first (ADR 0003)"@,
                        ),
                    )
                } else {
                    let from = slot.profile.slug;
                    (
                        fulfilled(
                            respecialized(w, i, profile).log(
                                EventSource::Agent(caller),
                                KindView::AgentRespecialized {
                                    agent,
                                    from,
                                    to: profile.slug,
                                    via_directive: cite,
                                },
                            ),
                            cite,
                            caller,
                        ),
                        yes(
                            obj3(
                                "agent"@,
                                JsonView::Text(agent.handle()),
                                "from"@,
                                JsonView::Text(from),
                                "to"@,
                                JsonView::Text(profile.slug),
                            ),
                        ),
                    )
                }
            },
        },
    }
}

/// The profile that the arguments give.
pub open spec fn profile_of(args: RespecializeArgs) -> ProfileView {
    ProfileView {
        slug: args.specialty.name@,
        description: args.specialty.description@,
        focus: args.specialty.focus@,
    }
}

/// The orchestrator gives a team agent another specialty.
pub fn handle_respecialize(caller: &AgentId, args: RespecializeArgs, world: &mut World) -> (r:
    ToolOutcome)
    requires
        old(world).valid(),
        old(world)@.room(2, 0, 0),
    ensures
        final(world).valid(),
        (final(world)@, r@) == respecialize_step(
            old(world)@,
            *caller,
            args.agent@,
            profile_of(args),
            args.in_response_to,
        ),
{
    let ghost wanted = profile_of(args);
    let cite = match validate_cite(world, args.in_response_to) {
        Ok(cite) => cite,
        Err(outcome) => {
            return outcome;
        },
    };
    let agent = match parse_team_agent(world, args.agent.as_str()) {
        Ok(agent) => agent,
        Err(outcome) => {
            return outcome;
        },
    };
    let slug = match SpecialtySlug::parse(args.specialty.name.as_str()) {
        Some(slug) => slug,
        None => {
            return refuse2(
                "invalid_slug",
                debug_quoted(args.specialty.name.as_str()).as_str(),
                " is not a valid specialty slug",
            );
        },
    };
    let i = match world.find_slot(agent) {
        Some(i) => i,
        None => {
            return refuse2("unknown_agent", agent.as_str().as_str(), " is not a team agent");
        },
    };
    let idle = matches!(world.team[i].state, AgentState::Idle);
    if !idle || world.team[i].in_flight {
        return refuse2(
            "not_idle",
            agent.as_str().as_str(),
            " is not Idle and settled — unassign or park first (ADR 0003)",
        );
    }
    let from = world.team[i].profile.slug.clone();
    world.team[i].profile =
    SpecialtyProfile {
        slug: slug.clone(),
        description: args.specialty.description,
        focus: args.specialty.focus,
    };
    world.team[i].window = no_lines();
    world.team[i].channel.set_specialty(slug.clone());
    assert(world@ =~= respecialized(old(world)@, i as int, wanted));
    let event = EventKind::AgentRespecialized {
        agent,
        from: from.clone(),
        to: slug.clone(),
        via_directive: cite,
    };
    proof {
        lemma_log(world@, EventSource::Agent(*caller), event@, 1, 0, 0);
    }
    world.append_event(EventSource::Agent(*caller), event);
    fulfill_cite(world, cite, caller);
    ToolOutcome::ok(
        object3(
            "agent",
            handle_json(agent),
            "from",
            Json::string(from.as_str()),
            "to",
            Json::string(slug.as_str()),
        ),
    )
}

/// Why an agent cannot be put to sleep: only a team agent that is idle and has no turn under way
/// can.
pub open spec fn sleep_refusal(w: WorldView, target: AgentId) -> Option<OutcomeView> {
    match slot_at(w.team, target, 0) {
        None => Some(no("unknown_agent"@, target.handle() + " is not a team agent"@)),
        Some(i) => if !(w.team[i].state is Idle) || w.team[i].in_flight {
            Some(
                no(
                    "not_idle"@,
                    target.handle() + " is not Idle — sleep is legal only from Idle (ADR 0015)"@,
                ),
            )
        } else {
            None
        },
    }
}

/// Whether an agent can be put to sleep.
pub fn sleep_guard(world: &World, target: &AgentId) -> (r: Result<(), ToolOutcome>)
    ensures
        match r {
            Ok(()) => sleep_refusal(world@, *target) is None,
            Err(outcome) => sleep_refusal(world@, *target) == Some(outcome@),
        },
{
    match world.find_slot(*target) {
        None => Err(refuse2("unknown_agent", target.as_str().as_str(), " is not a team agent")),
        Some(i) => {
            let idle = matches!(world.team[i].state, AgentState::Idle);
            if !idle || world.team[i].in_flight {
                Err(
                    refuse2(
                        "not_idle",
                        target.as_str().as_str(),
                        " is not Idle — sleep is legal only from Idle (ADR 0015)",
                    ),
                )
            } else {
                Ok(())
            }
        },
    }
}

/// The world after an agent has been put to sleep.
pub open spec fn slept(
    w: WorldView,
    caller: AgentId,
    target: AgentId,
    via: Option<DirectiveId>,
) -> WorldView {
    w.with_state(target, AgentState::Asleep).log(
        EventSource::Agent(caller),
        KindView::AgentSlept { agent: target, via_directive: via },
    )
}

/// Puts an agent to sleep.
fn put_to_sleep(world: &mut World, caller: &AgentId, target: AgentId, via: Option<DirectiveId>)
    requires
        old(world).valid(),
        old(world)@.log_room(1, 0, 0),
    ensures
        final(world).valid(),
        final(world)@ == slept(old(world)@, *caller, target, via),
{
    world.set_state(target, AgentState::Asleep);
    world.append_event(
        EventSource::Agent(*caller),
        EventKind::AgentSlept { agent: target, via_directive: via },
    );
}

/// What `sleep` does: a team agent that is idle goes to sleep.
pub open spec fn self_sleep_step(w: WorldView, caller: AgentId) -> Step {
    match slot_at(w.team, caller, 0) {
        None => (w, no("unknown_agent"@, caller.handle() + " is not a team agent"@)),
        Some(i) => if !(w.team[i].state is Idle) {
            (
                w,
                no(
                    "not_idle"@,
                    caller.handle() + " is not Idle — sleep is legal only from Idle (ADR 0015)"@,
                ),
            )
        } else {
            (
                slept(w, caller, caller, None),
                yes(
                    obj2(
                        "agent"@,
                        JsonView::Text(caller.handle()),
                        "state"@,
                        JsonView::Text("Asleep"@),
                    ),
                ),
            )
        },
    }
}

/// A team agent goes to sleep.
pub fn handle_self_sleep(caller: &AgentId, world: &mut World) -> (r: ToolOutcome)
    requires
        old(world).valid(),
        old(world)@.room(1, 0, 0),
    ensures
        final(world).valid(),
        (final(world)@, r@) == self_sleep_step(old(world)@, *caller),
{
    match world.find_slot(*caller) {
        None => refuse2("unknown_agent", caller.as_str().as_str(), " is not a team agent"),
        Some(i) => {
            let idle = matches!(world.team[i].state, AgentState::Idle);
            if !idle {
                return refuse2(
                    "not_idle",
                    caller.as_str().as_str(),
                    " is not Idle — sleep is legal only from Idle (ADR 0015)",
                );
            }
            put_to_sleep(world, caller, *caller, None);
            ToolOutcome::ok(object2("agent", handle_json(*caller), "state", Json::string("Asleep")))
        },
    }
}

/// What the orchestrator's `sleep_agent` does.
pub open spec fn sleep_step(w: WorldView, caller: AgentId, handle: Seq<char>) -> Step {
    match pool_agent(w, handle) {
        Err(outcome) => (w, outcome),
        Ok(target) => match sleep_refusal(w, target) {
            Some(outcome) => (w, outcome),
            None => (
                slept(w, caller, target, None),
                yes(
                    obj2(
                        "agent"@,
                        JsonView::Text(target.handle()),
                        "state"@,
                        JsonView::Text("Asleep"@),
                    ),
                ),
            ),
        },
    }
}

/// The orchestrator puts a team agent to sleep.
pub fn handle_sleep_agent(caller: &AgentId, args: SleepAgentArgs, world: &mut World) -> (r:
    ToolOutcome)
    requires
        old(world).valid(),
        old(world)@.room(1, 0, 0),
    ensures
        final(world).valid(),
        (final(world)@, r@) == sleep_step(old(world)@, *caller, args.agent@),
{
    let target = match parse_team_agent(world, args.agent.as_str()) {
        Ok(agent) => agent,
        Err(outcome) => {
            return outcome;
        },
    };
    if let Err(outcome) = sleep_guard(world, &target) {
        return outcome;
    }
    put_to_sleep(world, caller, target, None);
    ToolOutcome::ok(object2("agent", handle_json(target), "state", Json::string("Asleep")))
}

/// What a sleeping agent goes back to: the task that it still claims, or nothing.
pub open spec fn restored_state(w: WorldView, target: AgentId) -> RestoredState {
    match w.board.claim_of(target) {
        Some(k) => RestoredState::Working { task: w.board.tasks[k].id },
        None => RestoredState::Idle,
    }
}

/// A state gone back to.
pub open spec fn state_of(restored: RestoredState) -> AgentState {
    match restored {
        RestoredState::Working { task } => AgentState::Working { task },
        RestoredState::Idle => AgentState::Idle,
    }
}

/// Why an agent cannot be woken: only a team agent that sleeps can.
pub open spec fn wake_refusal(w: WorldView, target: AgentId) -> Option<OutcomeView> {
    match slot_at(w.team, target, 0) {
        None => Some(no("unknown_agent"@, target.handle() + " is not a team agent"@)),
        Some(i) => if !(w.team[i].state is Asleep) {
            Some(
                no(
                    "not_asleep"@,
                    target.handle()
                        + " is not Asleep — wake is legal only from Asleep (ADR 0015)"@,
                ),
            )
        } else {
            None
        },
    }
}

/// The world after an agent has been woken; its malformed turns are forgotten.
pub open spec fn awake(w: WorldView, target: AgentId) -> WorldView {
    let i = slot_at(w.team, target, 0)->0;
    w.with_slot(
        i,
        SlotView { state: state_of(restored_state(w, target)), malformed: 0, ..w.team[i] },
    )
}

/// Wakes an agent; gives what it goes back to.
pub fn wake_transition(world: &mut World, target: &AgentId) -> (r: Result<
    RestoredState,
    ToolOutcome,
>)
    requires
        old(world).valid(),
    ensures
        final(world).valid(),
        match wake_refusal(old(world)@, *target) {
            Some(outcome) => r is Err && r->Err_0@ == outcome && final(world)@ == old(world)@,
            None => r is Ok && r->Ok_0 == restored_state(old(world)@, *target) && final(world)@
                == awake(old(world)@, *target),
        },
{
    let i = match world.find_slot(*target) {
        None => {
            return Err(
                refuse2("unknown_agent", target.as_str().as_str(), " is not a team agent"),
            );
        },
        Some(i) => i,
    };
    let asleep = matches!(world.team[i].state, AgentState::Asleep);
    if !asleep {
        return Err(
            refuse2(
                "not_asleep",
                target.as_str().as_str(),
                " is not Asleep — wake is legal only from Asleep (ADR 0015)",
            ),
        );
    }
    let restored = match world.board.claimed_by(target) {
        Some(task) => RestoredState::Working { task: task.id },
        None => RestoredState::Idle,
    };
    world.team[i].state =
    match restored {
        RestoredState::Working { task } => AgentState::Working { task },
        RestoredState::Idle => AgentState::Idle,
    };
    world.team[i].consecutive_malformed = 0;
    assert(world@ =~= awake(old(world)@, *target));
    Ok(restored)
}

/// A state gone back to, as a JSON value.
pub open spec fn restored_json(restored: RestoredState) -> JsonView {
    match restored {
        RestoredState::Working { task } => obj1("Working"@, obj1("task"@, num(task.0))),
        RestoredState::Idle => JsonView::Text("Idle"@),
    }
}

fn restored_value(restored: RestoredState) -> (j: Json)
    ensures
        j@ == restored_json(restored),
{
    match restored {
        RestoredState::Working { task } => object1("Working", object1("task", Json::number(task.0))),
        RestoredState::Idle => Json::string("Idle"),
    }
}

/// What the orchestrator's `wake_agent` does.
pub open spec fn wake_step(w: WorldView, caller: AgentId, handle: Seq<char>) -> Step {
    match pool_agent(w, handle) {
        Err(outcome) => (w, outcome),
        Ok(target) => match wake_refusal(w, target) {
            Some(outcome) => (w, outcome),
            None => {
                let restored = restored_state(w, target);
                (
                    awake(w, target).log(
                        EventSource::Agent(caller),
                        KindView::AgentWoke { agent: target, restored, via_directive: None },
                    ),
                    yes(
                        obj2(
                            "agent"@,
                            JsonView::Text(target.handle()),
                            "restored"@,
                            restored_json(restored),
                        ),
                    ),
                )
            },
        },
    }
}

/// The orchestrator wakes a team agent.
pub fn handle_wake_agent(caller: &AgentId, args: WakeAgentArgs, world: &mut World) -> (r:
    ToolOutcome)
    requires
        old(world).valid(),
        old(world)@.room(1, 0, 0),
    ensures
        final(world).valid(),
        (final(world)@, r@) == wake_step(old(world)@, *caller, args.agent@),
{
    let target = match parse_team_agent(world, args.agent.as_str()) {
        Ok(agent) => agent,
        Err(outcome) => {
            return outcome;
        },
    };
    let restored = match wake_transition(world, &target) {
        Ok(restored) => restored,
        Err(outcome) => {
            return outcome;
        },
    };
    world.append_event(
        EventSource::Agent(*caller),
        EventKind::AgentWoke { agent: target, restored, via_directive: None },
    );
    ToolOutcome::ok(
        object2("agent", handle_json(target), "restored", restored_value(restored)),
    )
}

// ---------------------------------------------------------------------------
// Directives.
// ---------------------------------------------------------------------------

/// What a meta-agent's `sleep_agent` does: the guard comes first, so that a refusal issues no
/// directive.
pub open spec fn meta_sleep_step(w: WorldView, caller: AgentId, handle: Seq<char>) -> Step {
    match pool_agent(w, handle) {
        Err(outcome) => (w, outcome),
        Ok(target) => match sleep_refusal(w, target) {
            Some(outcome) => (w, outcome),
            None => (
                slept(
                    issued(
                        w,
                        caller,
                        DirectiveTier::Mechanical,
                        DirectiveKind::SleepAgent,
                        obj1("agent"@, JsonView::Text(target.handle())),
                        ResolutionView::Fulfilled { by: caller },
                    ),
                    caller,
                    target,
                    Some(DirectiveId(w.next_directive)),
                ),
                yes(
                    obj2(
                        "agent"@,
                        JsonView::Text(target.handle()),
                        "applied"@,
                        JsonView::Bool(true),
                    ),
                ),
            ),
        },
    }
}

/// A meta-agent puts a team agent to sleep.
pub fn handle_meta_sleep_agent(caller: &AgentId, args: SleepAgentArgs, world: &mut World) -> (r:
    ToolOutcome)
    requires
        old(world).valid(),
        old(world)@.room(2, 0, 0),
    ensures
        final(world).valid(),
        (final(world)@, r@) == meta_sleep_step(old(world)@, *caller, args.agent@),
{
    let target = match parse_team_agent(world, args.agent.as_str()) {
        Ok(agent) => agent,
        Err(outcome) => {
            return outcome;
        },
    };
    if let Err(outcome) = sleep_guard(world, &target) {
        return outcome;
    }
    proof {
        lemma_issue_room(
            world@,
            *caller,
            DirectiveTier::Mechanical,
            DirectiveKind::SleepAgent,
            obj1("agent"@, JsonView::Text(target.handle())),
            ResolutionView::Fulfilled { by: *caller },
            1,
        );
    }
    let directive = issue_directive(
        world,
        caller,
        DirectiveTier::Mechanical,
        DirectiveKind::SleepAgent,
        object1("agent", handle_json(target)),
        DirectiveState::Fulfilled { by: *caller },
    );
    put_to_sleep(world, caller, target, Some(directive));
    ToolOutcome::ok(object2("agent", handle_json(target), "applied", Json::Bool(true)))
}

/// Issuing a directive uses up one step's room.
proof fn lemma_issue_room(
    w: WorldView,
    from: AgentId,
    tier: DirectiveTier,
    kind: DirectiveKind,
    args: JsonView,
    state: ResolutionView,
    k: nat,
)
    requires
        w.wf(),
        w.room(k + 1, 0, 0),
    ensures
        issued(w, from, tier, kind, args, state).log_room(k, 0, 0),
{
    let id = DirectiveId(w.next_directive);
    let base = WorldView {
        next_directive: (w.next_directive + 1) as u64,
        directives: w.directives.push(DirectiveView { id, tier, kind, args, from, state }),
        ..w
    };
    let event = KindView::DirectiveIssued { directive: id, tier, kind, args };
    let before = WorldView { next_directive: w.next_directive, ..base };
    assert(before.wf());
    assert(before.log_room(k + 1, 0, 0));
    lemma_log(before, EventSource::Agent(from), event, k, 0, 0);
    let after = before.log(EventSource::Agent(from), event);
    assert(issued(w, from, tier, kind, args, state) == WorldView {
        next_directive: (w.next_directive + 1) as u64,
        ..after
    });
}

/// What a meta-agent's `wake_agent` does: the guard comes first, so that a refusal issues no
/// directive.
pub open spec fn meta_wake_step(w: WorldView, caller: AgentId, handle: Seq<char>) -> Step {
    match pool_agent(w, handle) {
        Err(outcome) => (w, outcome),
        Ok(target) => match wake_refusal(w, target) {
            Some(outcome) => (w, outcome),
            None => {
                let told = issued(
                    w,
                    caller,
                    DirectiveTier::Mechanical,
                    DirectiveKind::WakeAgent,
                    obj1("agent"@, JsonView::Text(target.handle())),
                    ResolutionView::Fulfilled { by: caller },
                );
                let restored = restored_state(w, target);
                (
                    awake(told, target).log(
                        EventSource::Agent(caller),
                        KindView::AgentWoke {
                            agent: target,
                            restored,
                            via_directive: Some(DirectiveId(w.next_directive)),
                        },
                    ),
                    yes(
                        obj2(
                            "applied"@,
                            JsonView::Bool(true),
                            "restored"@,
                            restored_json(restored),
                        ),
                    ),
                )
            },
        },
    }
}

/// A meta-agent wakes a team agent.
pub fn handle_meta_wake_agent(caller: &AgentId, args: WakeAgentArgs, world: &mut World) -> (r:
    ToolOutcome)
    requires
        old(world).valid(),
        old(world)@.room(2, 0, 0),
    ensures
        final(world).valid(),
        (final(world)@, r@) == meta_wake_step(old(world)@, *caller, args.agent@),
{
    let target = match parse_team_agent(world, args.agent.as_str()) {
        Ok(agent) => agent,
        Err(outcome) => {
            return outcome;
        },
    };
    let asleep = match world.find_slot(target) {
        Some(i) => matches!(world.team[i].state, AgentState::Asleep),
        None => false,
    };
    if !asleep {
        return refuse2(
            "not_asleep",
            target.as_str().as_str(),
            " is not Asleep — wake is legal only from Asleep (ADR 0015)",
        );
    }
    proof {
        lemma_issue_room(
            world@,
            *caller,
            DirectiveTier::Mechanical,
            DirectiveKind::WakeAgent,
            obj1("agent"@, JsonView::Text(target.handle())),
            ResolutionView::Fulfilled { by: *caller },
            1,
        );
    }
    let directive = issue_directive(
        world,
        caller,
        DirectiveTier::Mechanical,
        DirectiveKind::WakeAgent,
        object1("agent", handle_json(target)),
        DirectiveState::Fulfilled { by: *caller },
    );
    let restored = match wake_transition(world, &target) {
        Ok(restored) => restored,
        Err(outcome) => {
            return outcome;
        },
    };
    world.append_event(
        EventSource::Agent(*caller),
        EventKind::AgentWoke { agent: target, restored, via_directive: Some(directive) },
    );
    ToolOutcome::ok(
        object2("applied", Json::Bool(true), "restored", restored_value(restored)),
    )
}

/// The parallelism that a request for `requested` gets: at least one, at most what was configured.
pub open spec fn granted(w: WorldView, requested: u32) -> usize {
    if requested < 1 {
        1
    } else if requested > w.configured_parallelism {
        w.configured_parallelism
    } else {
        requested as usize
    }
}

/// The permits after the parallelism has changed: new ones are added at once; free ones are
/// withdrawn at once, and the others when they come back.
pub open spec fn retuned(w: WorldView, target: usize) -> WorldView {
    let current = w.effective_parallelism;
    if target > current {
        WorldView {
            permits: (w.permits + (target - current)) as usize,
            effective_parallelism: target,
            ..w
        }
    } else {
        let want = current - target;
        let taken = if want <= w.permits {
            want
        } else {
            w.permits as int
        };
        WorldView {
            permits: (w.permits - taken) as usize,
            permit_debt: (w.permit_debt + (want - taken)) as usize,
            effective_parallelism: target,
            ..w
        }
    }
}

/// The permit counters can take another change of parallelism.
pub open spec fn permit_room(w: WorldView) -> bool {
    &&& w.permits + w.configured_parallelism <= usize::MAX
    &&& w.permit_debt + w.effective_parallelism <= usize::MAX
}

/// Whether the permit counters can take another change of parallelism.
pub fn can_retune(world: &World) -> (b: bool)
    ensures
        b == permit_room(world@),
{
    world.permits <= usize::MAX - world.configured_parallelism && world.permit_debt <= usize::MAX
        - world.effective_parallelism
}

/// What `set_parallelism` does.
pub open spec fn parallel_step(w: WorldView, caller: AgentId, requested: u32) -> Step {
    let target = granted(w, requested);
    (
        retuned(
            issued(
                w,
                caller,
                DirectiveTier::Mechanical,
                DirectiveKind::SetParallelism,
                obj1("target"@, num(requested as u64)),
                ResolutionView::Fulfilled { by: caller },
            ),
            target,
        ).log(
            EventSource::Agent(caller),
            KindView::ParallelismChanged {
                requested,
                effective: crate::context::low32(target as nat),
                via_directive: DirectiveId(w.next_directive),
            },
        ),
        yes(obj2("applied"@, JsonView::Bool(true), "effective"@, num(target as u64))),
    )
}

/// A meta-agent changes how many team agents may work at once.
pub fn handle_set_parallelism(caller: &AgentId, args: SetParallelismArgs, world: &mut World) -> (r:
    ToolOutcome)
    requires
        old(world).valid(),
        old(world)@.room(2, 0, 0),
        permit_room(old(world)@),
    ensures
        final(world).valid(),
        (final(world)@, r@) == parallel_step(old(world)@, *caller, args.target),
{
    let requested = args.target;
    let target: usize = if requested < 1 {
        1
    } else if requested as u64 > world.configured_parallelism as u64 {
        world.configured_parallelism
    } else {
        requested as usize
    };
    proof {
        lemma_issue_room(
            world@,
            *caller,
            DirectiveTier::Mechanical,
            DirectiveKind::SetParallelism,
            obj1("target"@, num(requested as u64)),
            ResolutionView::Fulfilled { by: *caller },
            1,
        );
    }
    let directive = issue_directive(
        world,
        caller,
        DirectiveTier::Mechanical,
        DirectiveKind::SetParallelism,
        object1("target", Json::number(requested as u64)),
        DirectiveState::Fulfilled { by: *caller },
    );
    let ghost told = world@;
    let current = world.effective_parallelism;
    if target > current {
        world.permits = world.permits + (target - current);
    } else if target < current {
        let want: usize = current - target;
        let taken: usize = if want <= world.permits { want } else { world.permits };
        world.permits = world.permits - taken;
        world.permit_debt = world.permit_debt + (want - taken);
    }
    world.effective_parallelism = target;
    assert(world@ =~= retuned(told, target));
    world.append_event(
        EventSource::Agent(*caller),
        EventKind::ParallelismChanged {
            requested,
            effective: ((target as u128) % 0x1_0000_0000) as u32,
            via_directive: directive,
        },
    );
    ToolOutcome::ok(
        object2("applied", Json::Bool(true), "effective", Json::number(target as u64)),
    )
}

/// What a proposal does: a judgment directive is issued and stays pending.
pub open spec fn propose_step(
    w: WorldView,
    caller: AgentId,
    kind: DirectiveKind,
    raw: Seq<char>,
) -> Step {
    (
        issued(
            w,
            caller,
            DirectiveTier::Judgment,
            kind,
            match parsed_json(raw) {
                Some(v) => v,
                None => JsonView::Null,
            },
            ResolutionView::Pending,
        ),
        yes(obj1("directive_id"@, num(w.next_directive))),
    )
}

/// Arguments as they were sent, as a JSON value.
pub fn args_value(raw: &str) -> (j: Json)
    ensures
        j@ == (match parsed_json(raw@) {
            Some(v) => v,
            None => JsonView::Null,
        }),
{
    match Json::parse(raw) {
        Some(v) => v,
        None => Json::Null,
    }
}

/// A meta-agent makes a proposal.
pub fn handle_propose(caller: &AgentId, kind: DirectiveKind, raw: &str, world: &mut World) -> (r:
    ToolOutcome)
    requires
        old(world).valid(),
        old(world)@.room(1, 0, 0),
    ensures
        final(world).valid(),
        (final(world)@, r@) == propose_step(old(world)@, *caller, kind, raw@),
{
    let directive = issue_directive(
        world,
        caller,
        DirectiveTier::Judgment,
        kind,
        args_value(raw),
        DirectiveState::Pending,
    );
    ToolOutcome::ok(object1("directive_id", Json::number(directive.0)))
}

/// What `decline_directive` does.
pub open spec fn decline_step(
    w: WorldView,
    caller: AgentId,
    id: DirectiveId,
    reason: Seq<char>,
) -> Step {
    match directive_at(w.directives, id, 0) {
        None => (
            w,
            no("unknown_directive"@, "directive "@ + dec(id.0 as nat) + " does not exist"@),
        ),
        Some(i) => if !(w.directives[i].tier is Judgment) || !(w.directives[i].state is Pending) {
            (
                w,
                no(
                    "directive_not_pending"@,
                    "directive "@ + dec(id.0 as nat) + " is not a pending judgment directive"@,
                ),
            )
        } else {
            (
                resolved(w, id, ResolutionView::Declined { by: caller, reason }).log(
                    EventSource::Agent(caller),
                    KindView::DirectiveDeclined {
                        directive: id,
                        kind: w.directives[i].kind,
                        reason,
                        by: caller,
                    },
                ),
                yes(obj1("directive"@, num(id.0))),
            )
        },
    }
}

/// The orchestrator turns a directive down.
pub fn handle_decline_directive(
    caller: &AgentId,
    args: DeclineDirectiveArgs,
    world: &mut World,
) -> (r: ToolOutcome)
    requires
        old(world).valid(),
        old(world)@.room(1, 0, 0),
    ensures
        final(world).valid(),
        (final(world)@, r@) == decline_step(
            old(world)@,
            *caller,
            DirectiveId(args.directive),
            args.reason@,
        ),
{
    let id = DirectiveId(args.directive);
    let i = match find_directive(world, id) {
        None => {
            return refuse3(
                "unknown_directive",
                "directive ",
                dec_text(id.0).as_str(),
                " does not exist",
            );
        },
        Some(i) => i,
    };
    let judgment = matches!(world.directives[i].tier, DirectiveTier::Judgment);
    if !judgment || !world.directives[i].is_pending() {
        return refuse3(
            "directive_not_pending",
            "directive ",
            dec_text(id.0).as_str(),
            " is not a pending judgment directive",
        );
    }
    let kind = world.directives[i].kind;
    resolve(world, id, DirectiveState::Declined { by: *caller, reason: args.reason.clone() });
    world.append_event(
        EventSource::Agent(*caller),
        EventKind::DirectiveDeclined { directive: id, kind, reason: args.reason, by: *caller },
    );
    ToolOutcome::ok(object1("directive", Json::number(id.0)))
}

// ---------------------------------------------------------------------------
// Finishing.
// ---------------------------------------------------------------------------

/// The blockers as `task <id> [<state>]`.
pub open spec fn blocker_lines(list: Seq<TaskView>) -> Seq<Seq<char>>
    decreases list.len(),
{
    if list.len() == 0 {
        Seq::empty()
    } else {
        blocker_lines(list.drop_last()).push(
            "task "@ + dec(list.last().id.0 as nat) + " ["@ + list.last().state.label() + "]"@,
        )
    }
}

/// What `finish_run` does.
pub open spec fn finish_step(w: WorldView, report: Seq<char>) -> Step {
    let blockers = w.board.blockers(w.board.tasks.len() as int);
    if blockers.len() > 0 {
        (
            w,
            no(
                "blockers"@,
                "cannot finish: non-terminal tasks remain — "@ + joined(
                    blocker_lines(blockers),
                    ", "@,
                ),
            ),
        )
    } else {
        (
            WorldView { report: Some(report), finish_requested: true, ..w },
            yes(obj1("finishing"@, JsonView::Bool(true))),
        )
    }
}

/// The blockers of a finish, listed.
fn list_blockers(world: &World) -> (r: Option<String>)
    ensures
        ({
            let blockers = world@.board.blockers(world@.board.tasks.len() as int);
            match r {
                Some(list) => blockers.len() > 0 && list@ == joined(
                    blocker_lines(blockers),
                    ", "@,
                ),
                None => blockers.len() == 0,
            }
        }),
{
    let blockers = world.board.finish_blockers();
    if blockers.len() == 0 {
        return None;
    }
    let ghost all = world@.board.blockers(world@.board.tasks.len() as int);
    let mut parts = no_lines();
    let mut i: usize = 0;
    assert(all.take(0) =~= Seq::<TaskView>::empty());
    while i < blockers.len()
        invariant
            0 <= i <= blockers.len(),
            blockers@.len() == all.len(),
            forall|k: int| 0 <= k < blockers@.len() ==> (#[trigger] blockers@[k])@ == all[k],
            texts(parts@) == blocker_lines(all.take(i as int)),
        decreases blockers.len() - i,
    {
        assert(all.take(i + 1).drop_last() =~= all.take(i as int));
        assert(all.take(i + 1).last() == blockers@[i as int]@);
        let mut part = "task ".to_owned();
        part.push_str(dec_text(blockers[i].id.0).as_str());
        part.push_str(" [");
        part.push_str(blockers[i].state.digest_label().as_str());
        part.push_str("]");
        push_line(&mut parts, part);
        i = i + 1;
    }
    assert(all.take(i as int) =~= all);
    Some(join(&parts, ", "))
}

/// The orchestrator asks to finish the run.
pub fn handle_finish_run(args: FinishRunArgs, world: &mut World) -> (r: ToolOutcome)
    requires
        old(world).valid(),
    ensures
        final(world).valid(),
        (final(world)@, r@) == finish_step(old(world)@, args.report@),
{
    match list_blockers(world) {
        Some(list) => refuse2(
            "blockers",
            "cannot finish: non-terminal tasks remain — ",
            list.as_str(),
        ),
        None => {
            let ghost text = args.report@;
            world.report = Some(args.report);
            world.finish_requested = true;
            assert(world@ =~= (WorldView {
                report: Some(text),
                finish_requested: true,
                ..old(world)@
            }));
            ToolOutcome::ok(object1("finishing", Json::Bool(true)))
        },
    }
}

} // verus!
