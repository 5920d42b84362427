//! A turn's exchange with the model: when it asks, what it makes of a reply, and how it puts the
//! outcomes of its calls into the next request.
use crate::agent::{AgentId, Role};
use crate::board::lemma_searches;
use crate::context::window_text;
use crate::dispatch::{call_bytes, call_step, gist, Replies};
use crate::event::{text_view, TurnOutcome, TurnUsage};
use crate::ids::TaskId;
use crate::json::{parsed_json, JsonView};
use crate::llm::{ChannelView, LlmError, WireIdentity};
use crate::numbering::calls_keep_the_numbering;
use crate::tools::{tool_views, OutcomeView, ToolDef, ToolOutcome, ToolRegistry, VerbArgs};
use crate::turn::{
    admit_completion, admitted, broken, completion_failed, end_turn_bookkeeping, held_task, known,
    next_call,
    no_choices, record_call, remembered, task_held, turn_event, turn_over, TurnProgress, TurnStart,
};
use crate::verbs::{complete_step, permit_room};
use crate::wire::{
    call_views, conversation, CallView, ChatMessage, ChatRequest, LineView, ResponseMessage,
    ToolCall, ToolChoice,
};
use crate::world::{control_at, slot_at, ControlView, SlotView, World, WorldView};
use vstd::prelude::*;

verus! {

// ---------------------------------------------------------------------------
// Requests.
// ---------------------------------------------------------------------------

fn copy_tools(tools: &Vec<ToolDef>) -> (r: Vec<ToolDef>)
    ensures
        tool_views(r@) == tool_views(tools@),
{
    let mut r: Vec<ToolDef> = Vec::new();
    let mut i: usize = 0;
    while i < tools.len()
        invariant
            0 <= i <= tools.len(),
            r.len() == i,
            forall|k: int| 0 <= k < i ==> (#[trigger] r@[k])@ == tools@[k]@,
        decreases tools.len() - i,
    {
        let parameters = match &tools[i].parameters {
            Some(p) => Some(p.clone()),
            None => None,
        };
        let tool = ToolDef {
            name: tools[i].name.clone(),
            description: tools[i].description.clone(),
            parameters,
            strict: tools[i].strict,
        };
        assert(tool@ == tools@[i as int]@);
        r.push(tool);
        i = i + 1;
    }
    assert(tool_views(r@) =~= tool_views(tools@));
    r
}

/// The first request of a turn: the role's fixed text and the prompt, with the role's verbs on offer.
/// Meta-agents call one verb at a time.
pub fn first_request(model: &str, start: TurnStart, role: Role, tools: &Vec<ToolDef>) -> (r:
    ChatRequest)
    ensures
        r.model@ == model@,
        conversation(r.messages@) == seq![LineView::System(start.system@), LineView::User(start.user@)],
        tool_views(r.tools@) == tool_views(tools@),
        r.tool_choice == Some(ToolChoice::Auto),
        r.parallel_tool_calls == Some(!(role is MetaAgent)),
        r.user is None,
        r.stream is None,
        r.n is None,
{
    let ghost target = seq![LineView::System(start.system@), LineView::User(start.user@)];
    let mut messages: Vec<ChatMessage> = Vec::new();
    messages.push(ChatMessage::System { content: start.system });
    messages.push(ChatMessage::User { content: start.user });
    assert(conversation(messages@) =~= target);
    ChatRequest {
        model: model.to_owned(),
        messages,
        tools: copy_tools(tools),
        tool_choice: Some(ToolChoice::Auto),
        parallel_tool_calls: Some(!matches!(role, Role::MetaAgent)),
        user: None,
        stream: None,
        n: None,
    }
}

/// The replies to calls: one for each, under the call's number, in the order of the calls.
pub open spec fn replies_to(calls: Seq<CallView>, outcomes: Seq<OutcomeView>) -> Seq<LineView> {
    Seq::new(calls.len(), |i: int| LineView::Tool(outcomes[i].content(), calls[i].id))
}

/// What a list of outcomes holds.
pub open spec fn outcome_views(outcomes: Seq<ToolOutcome>) -> Seq<OutcomeView> {
    Seq::new(outcomes.len(), |i: int| outcomes[i]@)
}

/// Puts a round into the next request: what the model said and called, then one reply for each call.
pub fn add_round(
    messages: &mut Vec<ChatMessage>,
    content: Option<String>,
    calls: Vec<ToolCall>,
    outcomes: &Vec<ToolOutcome>,
)
    requires
        calls.len() == outcomes.len(),
    ensures
        conversation(final(messages)@) == conversation(old(messages)@).push(
            LineView::Assistant(text_view(content), Some(call_views(calls@))),
        ) + replies_to(call_views(calls@), outcome_views(outcomes@)),
{
    let ghost before = conversation(messages@);
    let ghost said = LineView::Assistant(text_view(content), Some(call_views(calls@)));
    let ghost called = call_views(calls@);
    let ghost answered = outcome_views(outcomes@);
    let mut answers: Vec<ChatMessage> = Vec::new();
    let mut i: usize = 0;
    while i < calls.len()
        invariant
            0 <= i <= calls.len(),
            calls.len() == outcomes.len(),
            answers.len() == i,
            called == call_views(calls@),
            answered == outcome_views(outcomes@),
            forall|k: int|
                0 <= k < i ==> (#[trigger] answers@[k])@ == replies_to(called, answered)[k],
        decreases calls.len() - i,
    {
        answers.push(
            ChatMessage::Tool {
                content: outcomes[i].to_content(),
                tool_call_id: calls[i].id.clone(),
            },
        );
        i = i + 1;
    }
    assert(conversation(answers@) =~= replies_to(called, answered));
    messages.push(ChatMessage::Assistant { content, tool_calls: Some(calls) });
    assert(conversation(messages@) =~= before.push(said));
    let ghost so_far = messages@;
    let ghost more = answers@;
    messages.append(&mut answers);
    assert(conversation(messages@) =~= conversation(so_far) + conversation(more));
}

// ---------------------------------------------------------------------------
// Asking.
// ---------------------------------------------------------------------------

/// An agent's channel.
pub open spec fn channel_of(w: WorldView, agent: AgentId, role: Role) -> ChannelView {
    match role {
        Role::Orchestrator => w.orchestrator.channel,
        Role::MetaAgent => w.metas[control_at(w.metas, agent, 0)->0].channel,
        Role::TeamAgent => w.team[slot_at(w.team, agent, 0)->0].channel,
    }
}

/// The world after an agent's channel has numbered one more call.
pub open spec fn numbered(w: WorldView, agent: AgentId, role: Role) -> WorldView {
    let channel = ChannelView {
        call_seq: (channel_of(w, agent, role).call_seq + 1) as u64,
        ..channel_of(w, agent, role)
    };
    match role {
        Role::Orchestrator => WorldView {
            orchestrator: ControlView { channel, ..w.orchestrator },
            ..w
        },
        Role::MetaAgent => {
            let i = control_at(w.metas, agent, 0)->0;
            WorldView { metas: w.metas.update(i, ControlView { channel, ..w.metas[i] }), ..w }
        },
        Role::TeamAgent => {
            let i = slot_at(w.team, agent, 0)->0;
            w.with_slot(i, SlotView { channel, ..w.team[i] })
        },
    }
}

/// The world after a turn has wanted to ask the model, and whether it may. It may not when the run
/// is finishing or the limit on completions is reached: the turn is then over.
pub open spec fn asked(w: WorldView, agent: AgentId, role: Role, max: Option<u64>) -> (
    WorldView,
    bool,
) {
    if w.finishing is Some {
        (turn_over(w, agent, role), false)
    } else {
        let (counted, granted) = admitted(w, agent, role, max);
        if granted {
            (numbered(counted, agent, role), true)
        } else {
            (counted, false)
        }
    }
}

/// Takes the number of the agent's next call.
fn number_call(world: &mut World, agent: AgentId, role: Role) -> (id: WireIdentity)
    requires
        old(world).valid(),
        known(old(world)@, agent, role),
        next_call(old(world)@, agent, role) < u64::MAX,
    ensures
        final(world).valid(),
        final(world)@ == numbered(old(world)@, agent, role),
        id.user@ == channel_of(old(world)@, agent, role).user().text(),
        id.call_seq == next_call(old(world)@, agent, role),
        id.seed == channel_of(old(world)@, agent, role).seed,
{
    match role {
        Role::Orchestrator => {
            let id = world.orchestrator.channel.next_identity();
            assert(world@ =~= numbered(old(world)@, agent, role));
            id
        },
        Role::MetaAgent => {
            let i = world.find_meta(agent).unwrap();
            let id = world.metas[i].channel.next_identity();
            assert(world@ =~= numbered(old(world)@, agent, role));
            id
        },
        Role::TeamAgent => {
            let i = world.find_slot(agent).unwrap();
            let id = world.team[i].channel.next_identity();
            assert(world@ =~= numbered(old(world)@, agent, role));
            id
        },
    }
}

/// A turn wants to ask the model: gives the identity to ask under, or closes the turn.
pub fn ask(world: &mut World, p: &TurnProgress, max_llm_calls: Option<u64>) -> (r: Option<
    WireIdentity,
>)
    requires
        old(world).valid(),
        old(world)@.log_room(2, 0, 0),
        old(world)@.llm_calls < u64::MAX,
        known(old(world)@, p.agent, p.role),
        next_call(old(world)@, p.agent, p.role) < u64::MAX,
    ensures
        final(world).valid(),
        final(world)@ == asked(old(world)@, p.agent, p.role, max_llm_calls).0,
        match r {
            Some(id) => {
                &&& asked(old(world)@, p.agent, p.role, max_llm_calls).1
                &&& id.user@ == channel_of(old(world)@, p.agent, p.role).user().text()
                &&& id.call_seq == next_call(old(world)@, p.agent, p.role)
                &&& id.seed == channel_of(old(world)@, p.agent, p.role).seed
            },
            None => !asked(old(world)@, p.agent, p.role, max_llm_calls).1,
        },
{
    if world.finishing.is_some() {
        end_turn_bookkeeping(world, &p.agent, p.role);
        return None;
    }
    if !admit_completion(world, &p.agent, p.role, max_llm_calls) {
        return None;
    }
    Some(number_call(world, p.agent, p.role))
}

// ---------------------------------------------------------------------------
// Replies.
// ---------------------------------------------------------------------------

/// What came back from the model.
#[derive(Debug)]
pub struct Completion {
    /// The tokens it took.
    pub usage: TurnUsage,
    /// The first choice, if there is any.
    pub message: Option<ResponseMessage>,
}

/// What a turn does next.
#[derive(Debug)]
pub enum TurnStep {
    /// Nothing: it is over.
    Over,
    /// It carries out these calls, then answers them.
    Act { content: Option<String>, calls: Vec<ToolCall> },
    /// It ends.
    End(TurnOutcome),
}

/// The calls of a message.
pub open spec fn called(message: ResponseMessage) -> Seq<CallView> {
    match message.tool_calls {
        Some(calls) => call_views(calls@),
        None => Seq::empty(),
    }
}

/// A turn's progress after a reply.
pub open spec fn progressed(p: TurnProgress, reply: Result<Completion, LlmError>) -> TurnProgress {
    match reply {
        Err(_) => p,
        Ok(c) => TurnProgress {
            usage: TurnUsage {
                prompt: (p.usage.prompt + c.usage.prompt) as u64,
                completion: (p.usage.completion + c.usage.completion) as u64,
                total: (p.usage.total + c.usage.total) as u64,
            },
            completions: (p.completions + 1) as u64,
            tool_iters: if c.message is Some && called(c.message->0).len() > 0 {
                (p.tool_iters + 1) as u32
            } else {
                p.tool_iters
            },
            ..p
        },
    }
}

/// The world after a reply: a fault, or a reply without a choice, ends the run; calls that arrive
/// when the run is finishing are dropped.
pub open spec fn heard(
    w: WorldView,
    p: TurnProgress,
    reply: Result<Completion, LlmError>,
) -> WorldView {
    match reply {
        Err(e) => broken(
            w,
            p.agent,
            p.role,
            "llm completion failed for "@ + p.agent.handle() + ": "@ + e.text(),
        ),
        Ok(c) => match c.message {
            None => broken(w, p.agent, p.role, "llm returned no choices for "@ + p.agent.handle()),
            Some(m) => if called(m).len() > 0 && w.finishing is Some {
                turn_over(w, p.agent, p.role)
            } else {
                w
            },
        },
    }
}

/// A turn takes a reply: it counts the tokens, and yields when nothing is called.
pub fn hear(world: &mut World, p: &mut TurnProgress, reply: Result<Completion, LlmError>) -> (r:
    TurnStep)
    requires
        old(world).valid(),
        old(world)@.log_room(1, 0, 0),
        reply matches Ok(c) ==> {
            &&& old(p).usage.prompt + c.usage.prompt <= u64::MAX
            &&& old(p).usage.completion + c.usage.completion <= u64::MAX
            &&& old(p).usage.total + c.usage.total <= u64::MAX
        },
        old(p).completions < u64::MAX,
        old(p).tool_iters < u32::MAX,
    ensures
        final(world).valid(),
        final(world)@ == heard(old(world)@, *old(p), reply),
        *final(p) == progressed(*old(p), reply),
        match reply {
            Err(_) => r is Over,
            Ok(c) => match c.message {
                None => r is Over,
                Some(m) => if called(m).len() == 0 {
                    r == TurnStep::End(TurnOutcome::Yielded)
                } else if old(world)@.finishing is Some {
                    r is Over
                } else {
                    &&& r is Act
                    &&& text_view(r->content) == text_view(m.content)
                    &&& call_views(r->calls@) == called(m)
                },
            },
        },
{
    let c = match reply {
        Ok(c) => c,
        Err(e) => {
            completion_failed(world, &p.agent, p.role, e.message().as_str());
            return TurnStep::Over;
        },
    };
    p.note_completion(c.usage.prompt, c.usage.completion, c.usage.total);
    let message = match c.message {
        Some(m) => m,
        None => {
            no_choices(world, &p.agent, p.role);
            return TurnStep::Over;
        },
    };
    let calls: Vec<ToolCall> = match message.tool_calls {
        Some(calls) => calls,
        None => Vec::new(),
    };
    if let Some(outcome) = p.begin_round(calls.len()) {
        return TurnStep::End(outcome);
    }
    if world.finishing.is_some() {
        end_turn_bookkeeping(world, &p.agent, p.role);
        return TurnStep::Over;
    }
    TurnStep::Act { content: message.content, calls }
}

/// The line that a call leaves in its agent's window.
pub open spec fn call_line(turn_index: u64, call: CallView, outcome: OutcomeView) -> Seq<char> {
    window_text(
        turn_index,
        call.name,
        gist(
            call.name,
            match parsed_json(call.arguments) {
                Some(v) => v,
                None => JsonView::Null,
            },
        ),
        outcome.word(),
    )
}

/// Carries out one call of a turn: dispatches it, remembers it in the agent's window, and takes note
/// of how it was answered and of the task that the agent then holds. A run that is finishing carries
/// out nothing, as `hear` sees to.
pub fn carry_out(
    world: &mut World,
    p: &mut TurnProgress,
    registry: &ToolRegistry,
    call: &ToolCall,
    decoded: Result<VerbArgs, String>,
    replies: Replies,
) -> (r: ToolOutcome)
    requires
        old(world).valid(),
        old(world)@.finishing is None,
        old(world)@.room(2, call_bytes(decoded), 0),
        permit_room(old(world)@),
        decoded is Ok ==> decoded->Ok_0.verb() == call.name@,
    ensures
        final(world).valid(),
        final(world)@.finishing is None,
        ({
            let (after, outcome) = call_step(
                old(world)@,
                registry.tools(old(p).role),
                old(p).role,
                old(p).agent,
                call.name@,
                decoded,
                replies,
            );
            &&& r@ == outcome
            &&& final(world)@ == remembered(
                after,
                old(p).agent,
                old(p).role,
                call_line(old(p).turn_index, call@, outcome),
            )
            &&& *final(p) == old(p).noted(call.name@, outcome).on(
                held_task(after, old(p).agent, old(p).role),
            )
        }),
{
    proof {
        calls_keep_the_numbering(
            world@,
            registry.tools(p.role),
            p.role,
            p.agent,
            call.name@,
            decoded,
            replies,
        );
    }
    let outcome = registry.dispatch(
        p.role,
        &p.agent,
        call.name.as_str(),
        decoded,
        replies,
        world,
    );
    let held = task_held(world, &p.agent, p.role);
    record_call(
        world,
        &p.agent,
        p.role,
        p.turn_index,
        call.name.as_str(),
        call.arguments.as_str(),
        &outcome,
    );
    p.note_call(call.name.as_str(), &outcome);
    p.note_task(held);
    outcome
}

// ---------------------------------------------------------------------------
// Laws.
// ---------------------------------------------------------------------------

/// A turn in which an agent completes its task is logged as a turn on that task, though the agent
/// holds none when it ends.
pub proof fn completing_turns_are_on_their_task(
    w: WorldView,
    p: TurnProgress,
    result: Seq<char>,
    name: Seq<char>,
    outcome: TurnOutcome,
)
    requires
        p.role is TeamAgent,
        p.on_task == held_task(w, p.agent, p.role),
        held_task(w, p.agent, p.role) is Some,
        w.board.wf(),
    ensures
        ({
            let (after, answer) = complete_step(w, p.agent, result, None);
            let ended = p.noted(name, answer).on(held_task(after, p.agent, p.role));
            &&& answer is Accepted
            &&& held_task(after, p.agent, p.role) is None
            &&& turn_event(ended, outcome) is TurnCompleted
            &&& turn_event(ended, outcome)->TurnCompleted_on_task == held_task(w, p.agent, p.role)
        }),
{
    let b = w.board;
    lemma_searches(b, TaskId(0), p.agent, Seq::empty(), 0);
    let i = b.claim_of(p.agent)->0;
    let after = complete_step(w, p.agent, result, None).0;
    lemma_searches(after.board, TaskId(0), p.agent, Seq::empty(), 0);
    if let Some(k) = after.board.claim_of(p.agent) {
        assert(after.board.tasks[k].state == (crate::board::StateView::Claimed { by: p.agent }));
        assert(k != i);
        assert(b.tasks[k] == after.board.tasks[k]);
        assert(b.tasks[i].state == b.tasks[k].state);
    }
}

/// Books are found where they were when only their contents change.
pub proof fn lemma_same_slots(a: Seq<SlotView>, b: Seq<SlotView>, agent: AgentId, i: int)
    requires
        a.len() == b.len(),
        forall|k: int| 0 <= k < a.len() ==> (#[trigger] a[k]).id == b[k].id,
        i >= 0,
    ensures
        slot_at(a, agent, i) == slot_at(b, agent, i),
        match slot_at(a, agent, i) {
            Some(k) => i <= k < a.len(),
            None => true,
        },
    decreases a.len() - i,
{
    if i < a.len() {
        assert(a[i].id == b[i].id);
        lemma_same_slots(a, b, agent, i + 1);
    }
}

/// Meta-agents' books are found where they were when only their contents change.
pub proof fn lemma_same_controls(a: Seq<ControlView>, b: Seq<ControlView>, agent: AgentId, i: int)
    requires
        a.len() == b.len(),
        forall|k: int| 0 <= k < a.len() ==> (#[trigger] a[k]).id == b[k].id,
        i >= 0,
    ensures
        control_at(a, agent, i) == control_at(b, agent, i),
        match control_at(a, agent, i) {
            Some(k) => i <= k < a.len(),
            None => true,
        },
    decreases a.len() - i,
{
    if i < a.len() {
        assert(a[i].id == b[i].id);
        lemma_same_controls(a, b, agent, i + 1);
    }
}

/// A turn's completions are numbered without gaps: where the agent's channel stands behind the
/// turn's completions so far, the call is numbered next to them, and the channel stands behind it
/// again once the reply has been taken.
pub proof fn turns_number_their_calls(
    w: WorldView,
    p: TurnProgress,
    max: Option<u64>,
    between: WorldView,
    reply: Result<Completion, LlmError>,
)
    requires
        known(w, p.agent, p.role),
        next_call(w, p.agent, p.role) == p.first_call_seq + p.completions,
        p.first_call_seq + p.completions < u64::MAX,
        asked(w, p.agent, p.role, max).1,
        known(between, p.agent, p.role),
        next_call(between, p.agent, p.role) == next_call(
            asked(w, p.agent, p.role, max).0,
            p.agent,
            p.role,
        ),
        reply matches Ok(c) && c.message is Some,
    ensures
        ({
            let told = progressed(p, reply);
            &&& next_call(heard(between, p, reply), p.agent, p.role) == told.first_call_seq
                + told.completions
            &&& told.last_call() == next_call(w, p.agent, p.role)
        }),
{
    let counted = admitted(w, p.agent, p.role, max).0;
    let asking = numbered(counted, p.agent, p.role);
    lemma_same_controls(counted.metas, counted.metas, p.agent, 0);
    lemma_same_slots(counted.team, counted.team, p.agent, 0);
    lemma_same_controls(counted.metas, asking.metas, p.agent, 0);
    lemma_same_slots(counted.team, asking.team, p.agent, 0);
    let after = heard(between, p, reply);
    lemma_same_controls(between.metas, between.metas, p.agent, 0);
    lemma_same_slots(between.team, between.team, p.agent, 0);
    lemma_same_controls(between.metas, after.metas, p.agent, 0);
    lemma_same_slots(between.team, after.team, p.agent, 0);
}

} // verus!
