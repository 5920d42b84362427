//! A turn: the prompt is made once, then completions and tool rounds alternate up to a limit, and
//! at the end the turn is logged.
//!
//! What waits for the model happens elsewhere. Here is every decision between two such waits.
use crate::agent::{AgentId, Role};
use crate::context::{
    all_served, assemble, claimed_task_line, copy_lines, degraded_in, drained_in,
    recent_event_line, retrieval_line, role_sections, skeleton_text, window_line, window_text,
    AssembleView, CharCountTokenizer, ContextPolicy, SceneView, SectionView,
};
use crate::directive::DirectiveView;
use crate::dispatch::{call_gist, gist};
use crate::event::{
    CapKind, EventKind, EventSource, EventView, KindView, RunFinishReason, TurnOutcome, TurnUsage,
};
use crate::ids::{MessageId, TaskId};
use crate::json::{parsed_json, JsonView};
use crate::knowledge::ScoredEntry;
use crate::message::{mail_for, unmailed, MessageView};
use crate::text::{joined, no_lines, push_line, same, texts};
use crate::tools::{OutcomeView, ToolOutcome};
use crate::world::{
    control_at, lemma_log, slot_at, AgentState, ControlView, SlotView, World, WorldView,
    MALFORMED_PARK_K, RECENT_EVENTS_WINDOW,
};
use vstd::prelude::*;

verus! {

// ---------------------------------------------------------------------------
// What an agent sees.
// ---------------------------------------------------------------------------

/// The lines of pending directives.
pub open spec fn pending_lines(directives: Seq<DirectiveView>) -> Seq<Seq<char>>
    decreases directives.len(),
{
    if directives.len() == 0 {
        Seq::empty()
    } else if directives.last().state is Pending {
        pending_lines(directives.drop_last()).push(directives.last().line())
    } else {
        pending_lines(directives.drop_last())
    }
}

/// The lines on what became of an agent's directives.
pub open spec fn outcome_lines(directives: Seq<DirectiveView>, from: AgentId) -> Seq<Seq<char>>
    decreases directives.len(),
{
    if directives.len() == 0 {
        Seq::empty()
    } else if directives.last().from == from {
        outcome_lines(directives.drop_last(), from).push(directives.last().report())
    } else {
        outcome_lines(directives.drop_last(), from)
    }
}

/// The lines of events.
pub open spec fn event_lines(events: Seq<EventView>) -> Seq<Seq<char>> {
    Seq::new(events.len(), |i: int| events[i].line())
}

/// The last events, as many as a prompt shows.
pub open spec fn recent_events(events: Seq<EventView>) -> Seq<EventView> {
    if events.len() <= RECENT_EVENTS_WINDOW {
        events
    } else {
        events.skip(events.len() - RECENT_EVENTS_WINDOW)
    }
}

/// The message with a number.
pub open spec fn message_of(messages: Seq<MessageView>, id: MessageId) -> Option<MessageView> {
    if 1 <= id.0 <= messages.len() {
        Some(messages[id.0 - 1])
    } else {
        None
    }
}

/// The lines of queued messages.
pub open spec fn mail_lines(messages: Seq<MessageView>, ids: Seq<MessageId>) -> Seq<Seq<char>>
    decreases ids.len(),
{
    if ids.len() == 0 {
        Seq::empty()
    } else {
        let before = mail_lines(messages, ids.drop_last());
        match message_of(messages, ids.last()) {
            Some(m) => before.push(m.line()),
            None => before,
        }
    }
}

/// The lines of search hits.
pub open spec fn hit_lines(hits: Seq<ScoredEntry>) -> Seq<Seq<char>> {
    Seq::new(hits.len(), |i: int| hits[i].line())
}

/// What a prompt looks for in the knowledge store: the goal and the title of the agent's claimed
/// task. A meta-agent's prompt looks for nothing, nor does any prompt while the store is empty.
pub open spec fn query_of(w: WorldView, agent: AgentId, role: Role) -> Option<Seq<char>> {
    if role is MetaAgent || w.store.len() == 0 {
        None
    } else {
        match w.board.claim_of(agent) {
            Some(i) => Some(w.goal.push(' ') + w.board.tasks[i].title),
            None => Some(w.goal),
        }
    }
}

/// Everything that an agent's prompt may show.
pub open spec fn scene(w: WorldView, agent: AgentId, role: Role, hits: Seq<ScoredEntry>) -> SceneView {
    let tasks = w.board.tasks.len() as int;
    SceneView {
        goal: w.goal,
        board_lines: match role {
            Role::Orchestrator => w.board.digest(None, tasks),
            Role::TeamAgent => w.board.digest(Some(agent), tasks),
            Role::MetaAgent => Seq::empty(),
        },
        run_health: if role is Orchestrator {
            Some(w.metrics.health())
        } else {
            None
        },
        claimed_line: if role is TeamAgent && w.board.claim_of(agent) is Some {
            Some(w.board.tasks[w.board.claim_of(agent)->0].claim_line())
        } else {
            None
        },
        window_lines: if role is TeamAgent && slot_at(w.team, agent, 0) is Some {
            w.team[slot_at(w.team, agent, 0)->0].window
        } else {
            Seq::empty()
        },
        queued_messages: if role is MetaAgent {
            Seq::empty()
        } else {
            mail_lines(w.messages, mail_for(w.mail, agent))
        },
        retrievals: if query_of(w, agent, role) is Some {
            hit_lines(hits)
        } else {
            Seq::empty()
        },
        directive_lines: if role is Orchestrator {
            pending_lines(w.directives)
        } else {
            Seq::empty()
        },
        outcome_lines: if role is MetaAgent {
            outcome_lines(w.directives, agent)
        } else {
            Seq::empty()
        },
        metrics_digest: if role is MetaAgent {
            Some(w.metrics.digest_text())
        } else {
            None
        },
        recent_event_lines: if role is MetaAgent {
            event_lines(recent_events(w.events))
        } else {
            Seq::empty()
        },
    }
}

fn list_pending(world: &World) -> (r: Vec<String>)
    ensures
        texts(r@) == pending_lines(world@.directives),
{
    let mut r = no_lines();
    let mut i: usize = 0;
    let ghost all = world@.directives;
    assert(all.take(0) =~= Seq::<DirectiveView>::empty());
    while i < world.directives.len()
        invariant
            0 <= i <= world.directives.len(),
            all == world@.directives,
            texts(r@) == pending_lines(all.take(i as int)),
        decreases world.directives.len() - i,
    {
        assert(all.take(i + 1).drop_last() =~= all.take(i as int));
        assert(all.take(i + 1).last() == world.directives@[i as int]@);
        if world.directives[i].is_pending() {
            push_line(&mut r, world.directives[i].directives_line());
        }
        i = i + 1;
    }
    assert(all.take(i as int) =~= all);
    r
}

fn list_outcomes(world: &World, from: AgentId) -> (r: Vec<String>)
    ensures
        texts(r@) == outcome_lines(world@.directives, from),
{
    let mut r = no_lines();
    let mut i: usize = 0;
    let ghost all = world@.directives;
    assert(all.take(0) =~= Seq::<DirectiveView>::empty());
    while i < world.directives.len()
        invariant
            0 <= i <= world.directives.len(),
            all == world@.directives,
            texts(r@) == outcome_lines(all.take(i as int), from),
        decreases world.directives.len() - i,
    {
        assert(all.take(i + 1).drop_last() =~= all.take(i as int));
        assert(all.take(i + 1).last() == world.directives@[i as int]@);
        if world.directives[i].from == from {
            push_line(&mut r, world.directives[i].outcomes_line());
        }
        i = i + 1;
    }
    assert(all.take(i as int) =~= all);
    r
}

fn list_events(world: &World) -> (r: Vec<String>)
    ensures
        texts(r@) == event_lines(recent_events(world@.events)),
{
    let len: usize = world.events.len();
    let start: usize = if len <= RECENT_EVENTS_WINDOW { 0 } else { len - RECENT_EVENTS_WINDOW };
    let ghost target = event_lines(recent_events(world@.events));
    assert(recent_events(world@.events) =~= world@.events.skip(start as int));
    let mut r = no_lines();
    let mut i: usize = start;
    assert(target.take(0) =~= Seq::<Seq<char>>::empty());
    while i < len
        invariant
            start <= i <= len,
            len == world.events.len(),
            target.len() == len - start,
            forall|k: int|
                0 <= k < target.len() ==> #[trigger] target[k] == world@.events[start + k].line(),
            texts(r@) == target.take(i - start),
        decreases len - i,
    {
        push_line(&mut r, recent_event_line(&world.events[i]));
        assert(target[i - start] == world@.events[i as int].line());
        assert(target.take(i - start + 1) =~= target.take(i - start).push(target[i - start]));
        i = i + 1;
    }
    assert(target.take(i - start) =~= target);
    r
}

fn list_mail(world: &World, agent: &AgentId) -> (r: Vec<String>)
    ensures
        texts(r@) == mail_lines(world@.messages, mail_for(world@.mail, *agent)),
{
    let ids = world.mailboxes.peek(agent);
    let mut r = no_lines();
    let mut i: usize = 0;
    assert(ids@.take(0) =~= Seq::<MessageId>::empty());
    while i < ids.len()
        invariant
            0 <= i <= ids.len(),
            texts(r@) == mail_lines(world@.messages, ids@.take(i as int)),
        decreases ids.len() - i,
    {
        assert(ids@.take(i + 1).drop_last() =~= ids@.take(i as int));
        assert(ids@.take(i + 1).last() == ids@[i as int]);
        let n: u64 = ids[i].0;
        if 1 <= n && n <= world.messages.len() as u64 {
            let k: usize = (n - 1) as usize;
            assert(world@.messages[k as int] == world.messages@[k as int]@);
            push_line(&mut r, world.messages[k].fresh_line());
        }
        i = i + 1;
    }
    assert(ids@.take(i as int) =~= ids@);
    r
}

fn list_hits(hits: &Vec<ScoredEntry>) -> (r: Vec<String>)
    ensures
        texts(r@) == hit_lines(hits@),
{
    let mut r = no_lines();
    let mut i: usize = 0;
    let ghost target = hit_lines(hits@);
    assert(target.take(0) =~= Seq::<Seq<char>>::empty());
    while i < hits.len()
        invariant
            0 <= i <= hits.len(),
            target == hit_lines(hits@),
            texts(r@) == target.take(i as int),
        decreases hits.len() - i,
    {
        push_line(&mut r, retrieval_line(&hits[i]));
        assert(target.take(i + 1) =~= target.take(i as int).push(target[i as int]));
        i = i + 1;
    }
    assert(target.take(i as int) =~= target);
    r
}

/// What a prompt looks for in the knowledge store.
pub fn retrieval_query(world: &World, agent: &AgentId, role: Role) -> (r: Option<String>)
    ensures
        crate::event::text_view(r) == query_of(world@, *agent, role),
{
    if role == Role::MetaAgent || world.store.entry_count() == 0 {
        return None;
    }
    let mut query = world.goal.clone();
    if let Some(task) = world.board.claimed_by(agent) {
        query.push(' ');
        query.push_str(task.title.as_str());
    }
    Some(query)
}

/// Gathers everything that an agent's prompt may show.
pub fn build_view(world: &World, agent: &AgentId, role: Role, hits: &Vec<ScoredEntry>) -> (v:
    AssembleView)
    ensures
        v@ == scene(world@, *agent, role, hits@),
{
    let mut view = AssembleView::default();
    view.goal = world.goal.clone();
    match role {
        Role::Orchestrator => {
            view.board_lines = world.board.digest_lines(None);
            view.run_health = Some(world.metrics.run_health_line());
            view.directive_lines = list_pending(world);
        },
        Role::TeamAgent => {
            view.board_lines = world.board.digest_lines(Some(agent));
            view.claimed_line =
            match world.board.claimed_by(agent) {
                Some(task) => Some(claimed_task_line(task)),
                None => None,
            };
            if let Some(i) = world.find_slot(*agent) {
                view.window_lines = copy_lines(&world.team[i].window);
                assert(texts(view.window_lines@) == world@.team[i as int].window);
            }
        },
        Role::MetaAgent => {
            view.metrics_digest = Some(world.metrics.digest());
            view.outcome_lines = list_outcomes(world, *agent);
            view.recent_event_lines = list_events(world);
        },
    }
    if role != Role::MetaAgent {
        view.queued_messages = list_mail(world, agent);
    }
    if retrieval_query(world, agent, role).is_some() {
        view.retrievals = list_hits(hits);
    }
    view
}

// ---------------------------------------------------------------------------
// The books of a turn.
// ---------------------------------------------------------------------------

/// The agent's turn is over: it is no longer under way.
pub open spec fn turn_over(w: WorldView, agent: AgentId, role: Role) -> WorldView {
    let rested = match role {
        Role::Orchestrator => WorldView {
            orchestrator: ControlView { in_flight: false, ..w.orchestrator },
            ..w
        },
        Role::MetaAgent => match control_at(w.metas, agent, 0) {
            Some(i) => WorldView {
                metas: w.metas.update(i, ControlView { in_flight: false, ..w.metas[i] }),
                ..w
            },
            None => w,
        },
        Role::TeamAgent => match slot_at(w.team, agent, 0) {
            Some(i) => w.with_slot(i, SlotView { in_flight: false, ..w.team[i] }),
            None => w,
        },
    };
    WorldView {
        turns_in_flight: if w.turns_in_flight == 0 {
            0
        } else {
            (w.turns_in_flight - 1) as usize
        },
        ..rested
    }
}

/// Closes the books of a turn. What happened since the prompt was made stays news.
pub fn end_turn_bookkeeping(world: &mut World, agent: &AgentId, role: Role)
    requires
        old(world).valid(),
    ensures
        final(world).valid(),
        final(world)@ == turn_over(old(world)@, *agent, role),
{
    match role {
        Role::Orchestrator => {
            world.orchestrator.in_flight = false;
        },
        Role::MetaAgent => {
            if let Some(i) = world.find_meta(*agent) {
                world.metas[i].in_flight = false;
            }
        },
        Role::TeamAgent => {
            if let Some(i) = world.find_slot(*agent) {
                world.team[i].in_flight = false;
            }
        },
    }
    if world.turns_in_flight > 0 {
        world.turns_in_flight = world.turns_in_flight - 1;
    }
    assert(world@ =~= turn_over(old(world)@, *agent, role));
}

/// The agent has books: the orchestrator always, the others if they are in the pool.
pub open spec fn known(w: WorldView, agent: AgentId, role: Role) -> bool {
    match role {
        Role::Orchestrator => true,
        Role::MetaAgent => control_at(w.metas, agent, 0) is Some,
        Role::TeamAgent => slot_at(w.team, agent, 0) is Some,
    }
}

/// A new turn in the agent's books: one more turn begun, and everything logged so far is seen.
pub open spec fn opened(w: WorldView, agent: AgentId, role: Role) -> WorldView {
    let seen = w.events.len() as usize;
    match role {
        Role::Orchestrator => WorldView {
            orchestrator: ControlView {
                turn_index: (w.orchestrator.turn_index + 1) as u64,
                watermark: seen,
                ..w.orchestrator
            },
            ..w
        },
        Role::MetaAgent => {
            let i = control_at(w.metas, agent, 0)->0;
            WorldView {
                metas: w.metas.update(
                    i,
                    ControlView {
                        turn_index: (w.metas[i].turn_index + 1) as u64,
                        watermark: seen,
                        ..w.metas[i]
                    },
                ),
                ..w
            }
        },
        Role::TeamAgent => {
            let i = slot_at(w.team, agent, 0)->0;
            w.with_slot(
                i,
                SlotView {
                    turn_index: (w.team[i].turn_index + 1) as u64,
                    watermark: seen,
                    ..w.team[i]
                },
            )
        },
    }
}

/// How many turns the agent has begun.
pub open spec fn turns_begun(w: WorldView, agent: AgentId, role: Role) -> u64 {
    match role {
        Role::Orchestrator => w.orchestrator.turn_index,
        Role::MetaAgent => w.metas[control_at(w.metas, agent, 0)->0].turn_index,
        Role::TeamAgent => w.team[slot_at(w.team, agent, 0)->0].turn_index,
    }
}

/// The number of the agent's next completion.
pub open spec fn next_call(w: WorldView, agent: AgentId, role: Role) -> u64 {
    match role {
        Role::Orchestrator => w.orchestrator.channel.call_seq,
        Role::MetaAgent => w.metas[control_at(w.metas, agent, 0)->0].channel.call_seq,
        Role::TeamAgent => w.team[slot_at(w.team, agent, 0)->0].channel.call_seq,
    }
}

/// The sections of an agent's prompt.
pub open spec fn prompt_sections(
    w: WorldView,
    agent: AgentId,
    role: Role,
    pool: Option<usize>,
    hits: Seq<ScoredEntry>,
) -> Seq<Option<SectionView>> {
    all_served(
        &CharCountTokenizer,
        role_sections(role),
        scene(w, agent, role, hits),
        match pool {
            Some(n) => Some(n as nat),
            None => None,
        },
    )
}

/// How many messages a drain of `n` takes off an agent's queue.
pub open spec fn takeable(w: WorldView, agent: AgentId, n: nat) -> int {
    let queue = mail_for(w.mail, agent);
    if n <= queue.len() {
        n as int
    } else {
        queue.len() as int
    }
}

/// The world after the messages that a prompt shows have been delivered.
pub open spec fn delivered(w: WorldView, agent: AgentId, n: nat) -> WorldView {
    if n == 0 {
        w
    } else {
        let k = takeable(w, agent, n);
        WorldView { mail: unmailed(w.mail, agent, k), ..w }.log(
            EventSource::Agent(agent),
            KindView::MessagesDelivered { delivered: mail_for(w.mail, agent).take(k) },
        )
    }
}

/// The world after what a prompt lost has been logged.
pub open spec fn degraded(
    w: WorldView,
    agent: AgentId,
    sections: Seq<crate::event::DegradedView>,
) -> WorldView {
    if sections.len() == 0 {
        w
    } else {
        w.log(EventSource::Agent(agent), KindView::ContextDegraded { agent, sections })
    }
}

/// The world after an agent's prompt has been made: what it shows of the mail is delivered, what it
/// lost is logged, and the turn is opened. In a run that is finishing, and for an agent without
/// books, there is no turn.
pub open spec fn begun(
    w: WorldView,
    agent: AgentId,
    role: Role,
    pool: Option<usize>,
    hits: Seq<ScoredEntry>,
) -> WorldView {
    if w.finishing is Some {
        turn_over(w, agent, role)
    } else {
        let sections = prompt_sections(w, agent, role, pool, hits);
        let told = degraded(
            delivered(w, agent, drained_in(sections)),
            agent,
            degraded_in(&CharCountTokenizer, role_sections(role), sections),
        );
        if known(told, agent, role) {
            opened(told, agent, role)
        } else {
            turn_over(told, agent, role)
        }
    }
}

/// A turn that has begun.
#[derive(Debug)]
pub struct TurnStart {
    /// The role's fixed text.
    pub system: String,
    /// The prompt.
    pub user: String,
    /// Which turn of the agent this is.
    pub turn_index: u64,
    /// The number of the turn's first completion.
    pub first_call_seq: u64,
    /// The task that the agent holds.
    pub on_task: Option<TaskId>,
}

/// The task that a team agent holds.
pub open spec fn held_task(w: WorldView, agent: AgentId, role: Role) -> Option<TaskId> {
    if role is TeamAgent {
        match w.board.claim_of(agent) {
            Some(i) => Some(w.board.tasks[i].id),
            None => None,
        }
    } else {
        None
    }
}

/// Finds the task that a team agent holds.
pub fn task_held(world: &World, agent: &AgentId, role: Role) -> (r: Option<TaskId>)
    ensures
        r == held_task(world@, *agent, role),
{
    match role {
        Role::TeamAgent => match world.board.claimed_by(agent) {
            Some(task) => Some(task.id),
            None => None,
        },
        _ => None,
    }
}

/// The turn counters can take one more turn.
pub open spec fn turn_room(w: WorldView) -> bool {
    &&& w.orchestrator.turn_index < u64::MAX
    &&& forall|i: int| 0 <= i < w.metas.len() ==> (#[trigger] w.metas[i]).turn_index < u64::MAX
    &&& forall|i: int| 0 <= i < w.team.len() ==> (#[trigger] w.team[i]).turn_index < u64::MAX
}

/// Opens a turn in the agent's books; gives the turn's number and that of its first completion.
fn open_turn(world: &mut World, agent: &AgentId, role: Role) -> (r: Option<(u64, u64)>)
    requires
        old(world).valid(),
        turn_room(old(world)@),
    ensures
        final(world).valid(),
        match r {
            Some((turn, call)) => {
                &&& known(old(world)@, *agent, role)
                &&& final(world)@ == opened(old(world)@, *agent, role)
                &&& turn == turns_begun(old(world)@, *agent, role) + 1
                &&& call == next_call(old(world)@, *agent, role)
            },
            None => !known(old(world)@, *agent, role) && final(world)@ == old(world)@,
        },
{
    let seen: usize = world.events.len();
    match role {
        Role::Orchestrator => {
            world.orchestrator.turn_index = world.orchestrator.turn_index + 1;
            world.orchestrator.watermark = seen;
            assert(world@ =~= opened(old(world)@, *agent, role));
            Some((world.orchestrator.turn_index, world.orchestrator.channel.next_call_seq()))
        },
        Role::MetaAgent => match world.find_meta(*agent) {
            Some(i) => {
                assert(world@.metas[i as int].turn_index < u64::MAX);
                world.metas[i].turn_index = world.metas[i].turn_index + 1;
                world.metas[i].watermark = seen;
                assert(world@ =~= opened(old(world)@, *agent, role));
                Some((world.metas[i].turn_index, world.metas[i].channel.next_call_seq()))
            },
            None => None,
        },
        Role::TeamAgent => match world.find_slot(*agent) {
            Some(i) => {
                assert(world@.team[i as int].turn_index < u64::MAX);
                world.team[i].turn_index = world.team[i].turn_index + 1;
                world.team[i].watermark = seen;
                assert(world@ =~= opened(old(world)@, *agent, role));
                Some((world.team[i].turn_index, world.team[i].channel.next_call_seq()))
            },
            None => None,
        },
    }
}

/// Delivers the messages that a prompt shows.
fn deliver(world: &mut World, agent: &AgentId, n: usize)
    requires
        old(world).valid(),
        old(world)@.log_room(1, 0, 0),
    ensures
        final(world).valid(),
        final(world)@ == delivered(old(world)@, *agent, n as nat),
{
    if n > 0 {
        let ghost k = takeable(world@, *agent, n as nat);
        assert(mail_for(world@.mail, *agent) =~= world.mailboxes.pending(*agent));
        let ids = world.mailboxes.drain(agent, n);
        assert(ids@ == mail_for(old(world)@.mail, *agent).take(k));
        assert(world@ =~= (WorldView {
            mail: unmailed(old(world)@.mail, *agent, k),
            ..old(world)@
        }));
        world.append_event(
            EventSource::Agent(*agent),
            EventKind::MessagesDelivered { delivered: ids },
        );
    }
}

/// The specialty that an agent's prompt names.
pub open spec fn specialty_of(w: WorldView, agent: AgentId) -> Option<crate::context::ProfileView> {
    match slot_at(w.team, agent, 0) {
        Some(i) => Some(w.team[i].profile),
        None => None,
    }
}

/// Two worlds whose books agree but for what meta-agents have observed.
pub open spec fn same_books(a: WorldView, b: WorldView) -> bool {
    &&& a.team == b.team
    &&& a.orchestrator == b.orchestrator
    &&& a.metas.len() == b.metas.len()
    &&& forall|i: int|
        0 <= i < a.metas.len() ==> (#[trigger] a.metas[i]).id == b.metas[i].id
            && a.metas[i].turn_index == b.metas[i].turn_index && a.metas[i].channel
            == b.metas[i].channel
}

proof fn lemma_same_control(a: Seq<ControlView>, b: Seq<ControlView>, agent: AgentId, i: int)
    requires
        a.len() == b.len(),
        forall|k: int| 0 <= k < a.len() ==> (#[trigger] a[k]).id == b[k].id,
        i >= 0,
    ensures
        control_at(a, agent, i) == control_at(b, agent, i),
        match control_at(a, agent, i) {
            Some(k) => i <= k < a.len(),
            None => true,
        },
    decreases a.len() - i,
{
    if i < a.len() {
        lemma_same_control(a, b, agent, i + 1);
    }
}

/// Logging leaves the books alone, but for what meta-agents have observed.
proof fn lemma_observed_books(a: WorldView, b: WorldView, agent: AgentId, role: Role)
    requires
        same_books(a, b),
    ensures
        known(a, agent, role) == known(b, agent, role),
        known(a, agent, role) ==> turns_begun(a, agent, role) == turns_begun(b, agent, role)
            && next_call(a, agent, role) == next_call(b, agent, role),
        turn_room(a) ==> turn_room(b),
{
    lemma_same_control(a.metas, b.metas, agent, 0);
    if turn_room(a) {
        assert forall|i: int| 0 <= i < b.metas.len() implies (#[trigger] b.metas[i]).turn_index
            < u64::MAX by {
            assert(a.metas[i].turn_index == b.metas[i].turn_index);
        }
    }
}

/// Begins a turn: makes the prompt, delivers what it shows of the mail, logs what it lost, and opens
/// the turn in the agent's books.
pub fn begin_turn(
    world: &mut World,
    agent: &AgentId,
    role: Role,
    pool: Option<usize>,
    hits: &Vec<ScoredEntry>,
) -> (r: Option<TurnStart>)
    requires
        old(world).valid(),
        old(world)@.log_room(2, 0, 0),
        turn_room(old(world)@),
    ensures
        final(world).valid(),
        final(world)@ == begun(old(world)@, *agent, role, pool, hits@),
        match r {
            Some(start) => {
                &&& old(world)@.finishing is None
                &&& known(old(world)@, *agent, role)
                &&& start.system@ == skeleton_text(role, specialty_of(old(world)@, *agent))
                &&& start.user@ == joined(
                    crate::context::blocks(
                        prompt_sections(old(world)@, *agent, role, pool, hits@),
                    ),
                    "\n\n"@,
                )
                &&& start.turn_index == turns_begun(old(world)@, *agent, role) + 1
                &&& start.first_call_seq == next_call(old(world)@, *agent, role)
                &&& start.on_task == held_task(old(world)@, *agent, role)
            },
            None => old(world)@.finishing is Some || !known(old(world)@, *agent, role),
        },
{
    if world.finishing.is_some() {
        end_turn_bookkeeping(world, agent, role);
        return None;
    }
    let on_task = task_held(world, agent, role);
    let view = build_view(world, agent, role, hits);
    let policy = ContextPolicy::for_role(role, pool);
    let specialty = match world.find_slot(*agent) {
        Some(i) => Some(world.team[i].profile.clone()),
        None => None,
    };
    let prompt = assemble(&policy, role, specialty.as_ref(), &view, &CharCountTokenizer);
    let ghost sections = prompt_sections(world@, *agent, role, pool, hits@);
    let ghost lost = degraded_in(&CharCountTokenizer, role_sections(role), sections);
    proof {
        if prompt.drained > 0 {
            let k = takeable(world@, *agent, prompt.drained as nat);
            let emptied = WorldView { mail: unmailed(world@.mail, *agent, k), ..world@ };
            lemma_log(
                emptied,
                EventSource::Agent(*agent),
                KindView::MessagesDelivered { delivered: mail_for(world@.mail, *agent).take(k) },
                1,
                0,
                0,
            );
        }
    }
    deliver(world, agent, prompt.drained);
    let ghost told = world@;
    assert(told.log_room(1, 0, 0));
    if prompt.degraded.len() > 0 {
        world.append_event(
            EventSource::Agent(*agent),
            EventKind::ContextDegraded { agent: *agent, sections: prompt.degraded },
        );
    }
    assert(world@ == degraded(told, *agent, lost));
    proof {
        lemma_observed_books(old(world)@, told, *agent, role);
        lemma_observed_books(told, world@, *agent, role);
    }
    match open_turn(world, agent, role) {
        Some((turn_index, first_call_seq)) => Some(
            TurnStart {
                system: prompt.system,
                user: prompt.user,
                turn_index,
                first_call_seq,
                on_task,
            },
        ),
        None => {
            end_turn_bookkeeping(world, agent, role);
            None
        },
    }
}

// ---------------------------------------------------------------------------
// Completions.
// ---------------------------------------------------------------------------

/// The world after a completion has been asked for. At the limit the run ends, and the turn with it.
pub open spec fn admitted(w: WorldView, agent: AgentId, role: Role, max: Option<u64>) -> (
    WorldView,
    bool,
) {
    match max {
        Some(m) => if w.llm_calls >= m {
            (turn_over(w.capped(CapKind::MaxLlmCalls, m, w.llm_calls), agent, role), false)
        } else {
            (WorldView { llm_calls: (w.llm_calls + 1) as u64, ..w }, true)
        },
        None => (WorldView { llm_calls: (w.llm_calls + 1) as u64, ..w }, true),
    }
}

/// Asks for a completion; the limit on completions may forbid it.
pub fn admit_completion(world: &mut World, agent: &AgentId, role: Role, max: Option<u64>) -> (ok:
    bool)
    requires
        old(world).valid(),
        old(world)@.log_room(2, 0, 0),
        old(world)@.llm_calls < u64::MAX,
    ensures
        final(world).valid(),
        (final(world)@, ok) == admitted(old(world)@, *agent, role, max),
{
    if let Some(m) = max {
        let seen = world.llm_calls;
        if seen >= m {
            world.trigger_cap(CapKind::MaxLlmCalls, m, seen);
            end_turn_bookkeeping(world, agent, role);
            return false;
        }
    }
    world.llm_calls = world.llm_calls + 1;
    assert(world@ =~= admitted(old(world)@, *agent, role, max).0);
    true
}

/// The world after a fault has ended the run, and the turn with it.
pub open spec fn broken(w: WorldView, agent: AgentId, role: Role, message: Seq<char>) -> WorldView {
    turn_over(w.failed(message), agent, role)
}

/// A completion failed: the run ends, and the turn with it.
pub fn completion_failed(world: &mut World, agent: &AgentId, role: Role, error: &str)
    requires
        old(world).valid(),
        old(world)@.log_room(1, 0, 0),
    ensures
        final(world).valid(),
        final(world)@ == broken(
            old(world)@,
            *agent,
            role,
            "llm completion failed for "@ + agent.handle() + ": "@ + error@,
        ),
{
    let mut message = "llm completion failed for ".to_owned();
    message.push_str(agent.as_str().as_str());
    message.push_str(": ");
    message.push_str(error);
    world.trigger_harness_error(message);
    end_turn_bookkeeping(world, agent, role);
}

/// A completion came back without a choice: the run ends, and the turn with it.
pub fn no_choices(world: &mut World, agent: &AgentId, role: Role)
    requires
        old(world).valid(),
        old(world)@.log_room(1, 0, 0),
    ensures
        final(world).valid(),
        final(world)@ == broken(
            old(world)@,
            *agent,
            role,
            "llm returned no choices for "@ + agent.handle(),
        ),
{
    let mut message = "llm returned no choices for ".to_owned();
    message.push_str(agent.as_str().as_str());
    world.trigger_harness_error(message);
    end_turn_bookkeeping(world, agent, role);
}

/// How far a turn has come.
#[derive(Clone, Copy, PartialEq, Eq, Structural, Debug)]
pub struct TurnProgress {
    /// Whose turn.
    pub agent: AgentId,
    /// The agent's role.
    pub role: Role,
    /// Which turn of the agent this is.
    pub turn_index: u64,
    /// The number of the turn's first completion.
    pub first_call_seq: u64,
    /// Tokens used.
    pub usage: TurnUsage,
    /// Tool rounds.
    pub tool_iters: u32,
    /// Completions.
    pub completions: u64,
    /// Whether a call was not malformed.
    pub any_success: bool,
    /// Whether all calls were malformed.
    pub all_invalid: bool,
    /// Whether the orchestrator's request to finish was accepted.
    pub finish_hit: bool,
    /// The task that the turn is on: the one that the agent held when the turn began, or has claimed
    /// since.
    pub on_task: Option<TaskId>,
}

impl TurnProgress {
    /// A turn at its start.
    pub fn new(
        agent: AgentId,
        role: Role,
        turn_index: u64,
        first_call_seq: u64,
        on_task: Option<TaskId>,
    ) -> (p: TurnProgress)
        ensures
            p == (TurnProgress {
                agent,
                role,
                turn_index,
                first_call_seq,
                usage: TurnUsage { prompt: 0, completion: 0, total: 0 },
                tool_iters: 0,
                completions: 0,
                any_success: false,
                all_invalid: true,
                finish_hit: false,
                on_task,
            }),
    {
        TurnProgress {
            agent,
            role,
            turn_index,
            first_call_seq,
            usage: TurnUsage { prompt: 0, completion: 0, total: 0 },
            tool_iters: 0,
            completions: 0,
            any_success: false,
            all_invalid: true,
            finish_hit: false,
            on_task,
        }
    }

    /// Counts a completion and its tokens.
    pub fn note_completion(&mut self, prompt: u64, completion: u64, total: u64)
        requires
            old(self).usage.prompt + prompt <= u64::MAX,
            old(self).usage.completion + completion <= u64::MAX,
            old(self).usage.total + total <= u64::MAX,
            old(self).completions < u64::MAX,
        ensures
            *final(self) == (TurnProgress {
                usage: TurnUsage {
                    prompt: (old(self).usage.prompt + prompt) as u64,
                    completion: (old(self).usage.completion + completion) as u64,
                    total: (old(self).usage.total + total) as u64,
                },
                completions: (old(self).completions + 1) as u64,
                ..*old(self)
            }),
    {
        self.completions = self.completions + 1;
        self.usage.prompt = self.usage.prompt + prompt;
        self.usage.completion = self.usage.completion + completion;
        self.usage.total = self.usage.total + total;
    }

    /// A completion's calls, if there are any, begin a tool round; without any the agent yields.
    pub fn begin_round(&mut self, calls: usize) -> (r: Option<TurnOutcome>)
        requires
            old(self).tool_iters < u32::MAX,
        ensures
            calls == 0 ==> r == Some(TurnOutcome::Yielded) && *final(self) == *old(self),
            calls > 0 ==> r is None && *final(self) == (TurnProgress {
                tool_iters: (old(self).tool_iters + 1) as u32,
                ..*old(self)
            }),
    {
        if calls == 0 {
            Some(TurnOutcome::Yielded)
        } else {
            self.tool_iters = self.tool_iters + 1;
            None
        }
    }

    /// The progress after a call has been answered.
    pub open spec fn noted(self, name: Seq<char>, outcome: OutcomeView) -> TurnProgress {
        TurnProgress {
            any_success: self.any_success || !(outcome is Invalid),
            all_invalid: self.all_invalid && outcome is Invalid,
            finish_hit: self.finish_hit || (self.role is Orchestrator && name == "finish_run"@
                && outcome is Accepted),
            ..self
        }
    }

    /// The progress after a look at the task that the agent holds now: a turn whose task has been
    /// completed or given back stays on it.
    pub open spec fn on(self, held: Option<TaskId>) -> TurnProgress {
        TurnProgress {
            on_task: if held is Some {
                held
            } else {
                self.on_task
            },
            ..self
        }
    }

    /// Takes note of the task that the agent holds now.
    pub fn note_task(&mut self, held: Option<TaskId>)
        ensures
            *final(self) == old(self).on(held),
    {
        if held.is_some() {
            self.on_task = held;
        }
    }

    /// Takes note of how a call was answered.
    pub fn note_call(&mut self, name: &str, outcome: &ToolOutcome)
        ensures
            *final(self) == old(self).noted(name@, outcome@),
    {
        if !outcome.is_invalid() {
            self.any_success = true;
            self.all_invalid = false;
        }
        let accepted = matches!(outcome, ToolOutcome::Accepted { .. });
        let lead = matches!(self.role, Role::Orchestrator);
        if lead && accepted && same(name, "finish_run") {
            self.finish_hit = true;
        }
    }

    /// Whether a tool round ends the turn: an accepted request to finish does, and so does the
    /// limit on tool rounds.
    pub fn end_round(&self, max_tool_iters: u32) -> (r: Option<TurnOutcome>)
        ensures
            r == (if self.finish_hit {
                Some(TurnOutcome::Yielded)
            } else if self.tool_iters >= max_tool_iters {
                Some(TurnOutcome::ToolIterCap)
            } else {
                None
            }),
    {
        if self.finish_hit {
            Some(TurnOutcome::Yielded)
        } else if self.tool_iters >= max_tool_iters {
            Some(TurnOutcome::ToolIterCap)
        } else {
            None
        }
    }

    /// The turn made calls and all were malformed.
    pub open spec fn malformed(self) -> bool {
        self.tool_iters > 0 && self.all_invalid
    }

    /// The number of the turn's last completion.
    pub open spec fn last_call(self) -> u64 {
        if self.completions == 0 {
            self.first_call_seq
        } else {
            (self.first_call_seq + self.completions - 1) as u64
        }
    }
}

/// The world after a call of a team agent has been remembered in its window.
pub open spec fn remembered(
    w: WorldView,
    agent: AgentId,
    role: Role,
    line: Seq<char>,
) -> WorldView {
    match (role, slot_at(w.team, agent, 0)) {
        (Role::TeamAgent, Some(i)) => w.with_slot(
            i,
            SlotView { window: w.team[i].window.push(line), ..w.team[i] },
        ),
        _ => w,
    }
}

/// Remembers a call of a team agent in its window.
pub fn record_call(
    world: &mut World,
    agent: &AgentId,
    role: Role,
    turn_index: u64,
    name: &str,
    arguments: &str,
    outcome: &ToolOutcome,
)
    requires
        old(world).valid(),
    ensures
        final(world).valid(),
        final(world)@ == remembered(
            old(world)@,
            *agent,
            role,
            window_text(
                turn_index,
                name@,
                gist(
                    name@,
                    match parsed_json(arguments@) {
                        Some(v) => v,
                        None => JsonView::Null,
                    },
                ),
                outcome@.word(),
            ),
        ),
{
    if role == Role::TeamAgent {
        if let Some(i) = world.find_slot(*agent) {
            let line = window_line(
                turn_index,
                name,
                call_gist(name, arguments).as_str(),
                outcome.word(),
            );
            let ghost text = line@;
            push_line(&mut world.team[i].window, line);
            assert(world@ =~= remembered(old(world)@, *agent, role, text));
        }
    }
}

// ---------------------------------------------------------------------------
// The end of a turn.
// ---------------------------------------------------------------------------

/// The event that a turn is logged with.
pub open spec fn turn_event(p: TurnProgress, outcome: TurnOutcome) -> KindView {
    KindView::TurnCompleted {
        first_call_seq: p.first_call_seq,
        last_call_seq: p.last_call(),
        tool_iters: p.tool_iters,
        outcome,
        malformed: p.malformed(),
        usage: p.usage,
        on_task: p.on_task,
    }
}

/// The world after an orchestrator turn has been counted. At the limit the run ends, unless the
/// orchestrator has asked to finish.
pub open spec fn ticked(w: WorldView, max_ticks: Option<u64>) -> WorldView {
    let ticks = (w.ticks + 1) as u64;
    let counted = WorldView { ticks, ..w };
    match max_ticks {
        Some(m) => if ticks >= m && !w.finish_requested {
            counted.capped(CapKind::MaxTicks, m, ticks)
        } else {
            counted
        },
        None => counted,
    }
}

/// The world after a team agent's turn has been weighed: malformed turns in a row are counted, and
/// the third parks the agent, which keeps its task; a turn with any good call forgives them.
pub open spec fn weighed(w: WorldView, p: TurnProgress) -> WorldView {
    match slot_at(w.team, p.agent, 0) {
        None => w,
        Some(i) => if p.malformed() {
            let count = (w.team[i].malformed + 1) as u32;
            if count >= MALFORMED_PARK_K {
                w.with_slot(
                    i,
                    SlotView { malformed: count, state: AgentState::Asleep, ..w.team[i] },
                ).log(
                    EventSource::Agent(p.agent),
                    KindView::AgentParked { agent: p.agent, count },
                )
            } else {
                w.with_slot(i, SlotView { malformed: count, ..w.team[i] })
            }
        } else if p.any_success {
            w.with_slot(i, SlotView { malformed: 0, ..w.team[i] })
        } else {
            w
        },
    }
}

/// The world after the orchestrator's request to finish has been granted.
pub open spec fn concluded(w: WorldView, p: TurnProgress) -> WorldView {
    if p.finish_hit && w.finish_requested && w.finishing is None {
        WorldView {
            finishing: Some((RunFinishReason::CleanFinish, 0)),
            ..w.log(
                EventSource::Agent(AgentId::Orchestrator),
                KindView::RunFinished { reason: RunFinishReason::CleanFinish, exit_code: 0 },
            )
        }
    } else {
        w
    }
}

/// The world after a turn has been logged and weighed.
pub open spec fn settled(
    w: WorldView,
    p: TurnProgress,
    outcome: TurnOutcome,
    max_ticks: Option<u64>,
) -> WorldView {
    if w.finishing is Some {
        w
    } else {
        let logged = w.log(EventSource::Agent(p.agent), turn_event(p, outcome));
        let counted = match p.role {
            Role::Orchestrator => ticked(logged, max_ticks),
            Role::TeamAgent => weighed(logged, p),
            Role::MetaAgent => logged,
        };
        concluded(counted, p)
    }
}

/// The world after a turn has ended.
pub open spec fn ended(
    w: WorldView,
    p: TurnProgress,
    outcome: TurnOutcome,
    max_ticks: Option<u64>,
    io_error: Option<Seq<char>>,
) -> WorldView {
    let done = settled(w, p, outcome, max_ticks);
    let checked = match io_error {
        Some(e) => done.failed("events.jsonl write failed: "@ + e),
        None => done,
    };
    turn_over(checked, p.agent, p.role)
}

/// Counts an orchestrator turn.
fn count_tick(world: &mut World, max_ticks: Option<u64>)
    requires
        old(world).valid(),
        old(world)@.log_room(2, 0, 0),
        old(world)@.ticks < u64::MAX,
    ensures
        final(world).valid(),
        final(world)@ == ticked(old(world)@, max_ticks),
        final(world)@.finishing is None ==> final(world)@.log_room(2, 0, 0),
{
    world.ticks = world.ticks + 1;
    let ticks = world.ticks;
    assert(world@ =~= (WorldView { ticks, ..old(world)@ }));
    if let Some(m) = max_ticks {
        if ticks >= m && !world.finish_requested {
            world.trigger_cap(CapKind::MaxTicks, m, ticks);
        }
    }
}

/// Weighs a team agent's turn.
fn weigh_turn(world: &mut World, p: &TurnProgress)
    requires
        old(world).valid(),
        old(world)@.log_room(2, 0, 0),
        forall|i: int|
            0 <= i < old(world)@.team.len() ==> (#[trigger] old(world)@.team[i]).malformed
                < u32::MAX,
    ensures
        final(world).valid(),
        final(world)@ == weighed(old(world)@, *p),
        final(world)@.log_room(1, 0, 0),
{
    if let Some(i) = world.find_slot(p.agent) {
        assert(world@.team[i as int].malformed < u32::MAX);
        if p.tool_iters > 0 && p.all_invalid {
            let count: u32 = world.team[i].consecutive_malformed + 1;
            world.team[i].consecutive_malformed = count;
            if count >= MALFORMED_PARK_K {
                world.team[i].state = AgentState::Asleep;
                let ghost parked = old(world)@.with_slot(
                    i as int,
                    SlotView {
                        malformed: count,
                        state: AgentState::Asleep,
                        ..old(world)@.team[i as int]
                    },
                );
                assert(world@ =~= parked);
                proof {
                    lemma_log(
                        world@,
                        EventSource::Agent(p.agent),
                        KindView::AgentParked { agent: p.agent, count },
                        1,
                        0,
                        0,
                    );
                }
                world.append_event(
                    EventSource::Agent(p.agent),
                    EventKind::AgentParked { agent: p.agent, count },
                );
            } else {
                assert(world@ =~= weighed(old(world)@, *p));
            }
        } else if p.any_success {
            world.team[i].consecutive_malformed = 0;
            assert(world@ =~= weighed(old(world)@, *p));
        }
    }
}

/// Ends a turn: logs it, counts or weighs it, finishes the run if that was granted, and closes the
/// books. A failure to write the log ends the run.
pub fn finalize_turn(
    world: &mut World,
    p: &TurnProgress,
    outcome: TurnOutcome,
    max_ticks: Option<u64>,
    io_error: Option<String>,
)
    requires
        old(world).valid(),
        old(world)@.log_room(4, 0, p.usage.total as nat),
        old(world)@.ticks < u64::MAX,
        p.first_call_seq + p.completions <= u64::MAX,
        forall|i: int|
            0 <= i < old(world)@.team.len() ==> (#[trigger] old(world)@.team[i]).malformed
                < u32::MAX,
    ensures
        final(world).valid(),
        final(world)@ == ended(
            old(world)@,
            *p,
            outcome,
            max_ticks,
            crate::event::text_view(io_error),
        ),
{
    if world.finishing.is_none() {
        let last_call_seq: u64 = if p.completions == 0 {
            p.first_call_seq
        } else {
            p.first_call_seq + (p.completions - 1)
        };
        let event = EventKind::TurnCompleted {
            first_call_seq: p.first_call_seq,
            last_call_seq,
            tool_iters: p.tool_iters,
            outcome,
            malformed: p.tool_iters > 0 && p.all_invalid,
            usage: p.usage,
            on_task: p.on_task,
        };
        assert(event@ == turn_event(*p, outcome));
        proof {
            lemma_log(world@, EventSource::Agent(p.agent), event@, 3, 0, 0);
        }
        world.append_event(EventSource::Agent(p.agent), event);
        assert(world@.log_room(2, 0, 0));
        match p.role {
            Role::Orchestrator => {
                count_tick(world, max_ticks);
            },
            Role::TeamAgent => {
                weigh_turn(world, p);
            },
            Role::MetaAgent => {},
        }
        if p.finish_hit && world.finish_requested && world.finishing.is_none() {
            conclude(world);
        }
    }
    assert(world@ == settled(old(world)@, *p, outcome, max_ticks));
    if let Some(e) = io_error {
        let mut message = "events.jsonl write failed: ".to_owned();
        message.push_str(e.as_str());
        if world.finishing.is_none() {
            world.trigger_harness_error(message);
        } else {
            assert(world@.failed(message@) == world@);
        }
    }
    end_turn_bookkeeping(world, &p.agent, p.role);
}

/// Finishes the run at the orchestrator's request.
fn conclude(world: &mut World)
    requires
        old(world).valid(),
        old(world)@.log_room(1, 0, 0),
    ensures
        final(world).valid(),
        final(world)@ == (WorldView {
            finishing: Some((RunFinishReason::CleanFinish, 0)),
            ..old(world)@.log(
                EventSource::Agent(AgentId::Orchestrator),
                KindView::RunFinished { reason: RunFinishReason::CleanFinish, exit_code: 0 },
            )
        }),
{
    world.append_event(
        EventSource::Agent(AgentId::Orchestrator),
        EventKind::RunFinished { reason: RunFinishReason::CleanFinish, exit_code: 0 },
    );
    let ghost told = world@;
    world.finishing = Some((RunFinishReason::CleanFinish, 0));
    assert(world@ =~= (WorldView {
        finishing: Some((RunFinishReason::CleanFinish, 0)),
        ..told
    }));
}

// ---------------------------------------------------------------------------
// Room.
// ---------------------------------------------------------------------------

/// Every counter of a run can take a step: `k` more events with `bytes` more bytes of knowledge and
/// `tokens` more tokens, one more turn, tick and completion, and one more malformed turn of anyone.
pub open spec fn step_room(w: WorldView, k: nat, bytes: nat, tokens: nat) -> bool {
    &&& w.room(k, bytes, tokens)
    &&& turn_room(w)
    &&& w.ticks < u64::MAX
    &&& w.llm_calls < u64::MAX
    &&& forall|i: int| 0 <= i < w.team.len() ==> (#[trigger] w.team[i]).malformed < u32::MAX
    &&& crate::schedule::flight_room(w)
    &&& crate::verbs::permit_room(w)
    &&& w.permits < usize::MAX
}

/// Whether every counter of a run can take a step.
pub fn has_room(world: &World, k: u32, bytes: u64, tokens: u64) -> (b: bool)
    ensures
        b == step_room(world@, k as nat, bytes as nat, tokens as nat),
{
    if !world.can_step(k, bytes, tokens) || world.ticks == u64::MAX || world.llm_calls == u64::MAX
        || world.orchestrator.turn_index == u64::MAX || world.permits == usize::MAX
        || !crate::verbs::can_retune(world) {
        return false;
    }
    let agents: u128 = 1 + world.metas.len() as u128 + world.team.len() as u128;
    if world.turns_in_flight as u128 + agents > usize::MAX as u128 {
        return false;
    }
    let mut i: usize = 0;
    while i < world.metas.len()
        invariant
            0 <= i <= world.metas.len(),
            forall|k: int| 0 <= k < i ==> (#[trigger] world@.metas[k]).turn_index < u64::MAX,
        decreases world.metas.len() - i,
    {
        assert(world@.metas[i as int].turn_index == world.metas@[i as int].turn_index);
        if world.metas[i].turn_index == u64::MAX {
            return false;
        }
        i = i + 1;
    }
    let mut j: usize = 0;
    while j < world.team.len()
        invariant
            0 <= j <= world.team.len(),
            forall|k: int|
                0 <= k < j ==> (#[trigger] world@.team[k]).turn_index < u64::MAX
                    && world@.team[k].malformed < u32::MAX,
        decreases world.team.len() - j,
    {
        assert(world@.team[j as int].turn_index == world.team@[j as int].turn_index);
        assert(world@.team[j as int].malformed == world.team@[j as int].consecutive_malformed);
        if world.team[j].turn_index == u64::MAX || world.team[j].consecutive_malformed == u32::MAX {
            return false;
        }
        j = j + 1;
    }
    true
}

// ---------------------------------------------------------------------------
// Laws.
// ---------------------------------------------------------------------------

/// A parked agent keeps its task: weighing a turn never touches the board, and it puts the agent to
/// sleep exactly when this is at least the third malformed turn in a row.
pub proof fn parks_keep_claims(w: WorldView, p: TurnProgress, i: int)
    requires
        slot_at(w.team, p.agent, 0) == Some(i),
        w.team[i].malformed < u32::MAX,
    ensures
        weighed(w, p).board == w.board,
        weighed(w, p).team[i].state == (if p.malformed() && w.team[i].malformed + 1
            >= MALFORMED_PARK_K {
            AgentState::Asleep
        } else {
            w.team[i].state
        }),
        p.malformed() ==> weighed(w, p).team[i].malformed == w.team[i].malformed + 1,
        !p.malformed() && p.any_success ==> weighed(w, p).team[i].malformed == 0,
{
    crate::world::lemma_slot_at(w.team, p.agent, 0);
}

} // verus!
