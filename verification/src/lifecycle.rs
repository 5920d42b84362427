//! What holds of a run as a whole, whatever its agents do: the log tells the board and the agents
//! in full, and what an agent does fits what it has claimed.
use crate::agent::{AgentId, Role};
use crate::board::{claim_at, lemma_searches, BoardView, StateView, TaskView};
use crate::context::ProfileView;
use crate::directive::{DirectiveKind, DirectiveTier, ResolutionView};
use crate::dispatch::{args_step, call_step, Replies};
use crate::event::{text_view, EventSource, KindView, Timestamp, TurnOutcome};
use crate::ids::{DirectiveId, RunId, TaskId};
use crate::json::JsonView;
use crate::knowledge::ScoredEntry;
use crate::run::{blank_world, start_event, RunConfig};
use crate::schedule::{plan, plan_metas, plan_orchestrator, plan_team, Planned};
use crate::serve::fold::{
    agents_applied, agents_replayed, applied, booted, entry_at, replayed, with_specialty,
    with_wire_state, AgentWireState, ClientAgent,
};
use crate::text::texts;
use crate::tools::{ToolView, VerbArgs};
use crate::turn::{
    admitted, begun, broken, degraded, delivered, ended, opened, remembered, settled, ticked,
    turn_over, weighed, TurnProgress,
};
use crate::verbs::{
    assigned, awake, cancel_step, claim_step, complete_step, create_step, decline_step,
    dissolve_step, fault, finish_step, form_step, fulfilled, issued, learned, members_step,
    meta_sleep_step, meta_wake_step, parallel_step, pool_agent, post_step, posted, profile_of,
    propose_step, release_step, relieved, resolved, respecialize_step, respecialized,
    restored_state, retuned, self_sleep_step, sleep_step, slept, state_of, unassign_step, wake_step,
    write_step,
};
use crate::world::{lemma_slot_at, slot_at, AgentState, SlotView, WorldView};
use vstd::prelude::*;

verus! {

// ---------------------------------------------------------------------------
// The log tells the board.
// ---------------------------------------------------------------------------

/// The board is the one that the log describes.
pub open spec fn mirrored(w: WorldView) -> bool {
    w.board == replayed(w.events)
}

/// What the clients of a run see of an agent is what the agent does.
pub open spec fn seen_as(state: AgentState, wire: AgentWireState) -> bool {
    match state {
        AgentState::Idle => wire == AgentWireState::Idle,
        AgentState::Working { task } => wire == (AgentWireState::Working { task }),
        AgentState::Asleep => wire == AgentWireState::Asleep || wire == AgentWireState::Parked,
    }
}

/// Agents as clients see them are the team agents.
pub open spec fn shadow(team: Seq<SlotView>, agents: Seq<ClientAgent>) -> bool {
    &&& team.len() == agents.len()
    &&& forall|i: int| 0 <= i < team.len() ==> (#[trigger] team[i]).id == agents[i].handle
    &&& forall|i: int|
        0 <= i < team.len() ==> (#[trigger] team[i]).profile.slug == agents[i].specialty
    &&& forall|i: int| 0 <= i < team.len() ==> seen_as((#[trigger] team[i]).state, agents[i].state)
}

/// The agents are those that the log describes.
pub open spec fn shadowed(w: WorldView) -> bool {
    shadow(w.team, agents_replayed(w.events))
}

// ---------------------------------------------------------------------------
// Agents are in step with the board.
// ---------------------------------------------------------------------------

/// The task that an agent has claimed.
pub open spec fn claim_id(b: BoardView, agent: AgentId) -> Option<TaskId> {
    match b.claim_of(agent) {
        Some(i) => Some(b.tasks[i].id),
        None => None,
    }
}

/// What an agent does fits what it has claimed: it works on exactly its claim, and is idle only
/// without one. A sleeping agent may have one.
pub open spec fn fits(b: BoardView, slot: SlotView) -> bool {
    match slot.state {
        AgentState::Idle => claim_id(b, slot.id) is None,
        AgentState::Working { task } => claim_id(b, slot.id) == Some(task),
        AgentState::Asleep => true,
    }
}

/// No two team agents are the same, and what each does fits what it has claimed.
pub open spec fn in_step(w: WorldView) -> bool {
    &&& forall|i: int, j: int|
        0 <= i < w.team.len() && 0 <= j < w.team.len() && (#[trigger] w.team[i]).id == (
        #[trigger] w.team[j]).id ==> i == j
    &&& forall|i: int| 0 <= i < w.team.len() ==> fits(w.board, #[trigger] w.team[i])
}

// ---------------------------------------------------------------------------
// Events that change neither.
// ---------------------------------------------------------------------------

/// From one world to the other, the board, what the agents do, and what the log tells of both stay.
pub open spec fn quiet(a: WorldView, b: WorldView) -> bool {
    &&& b.board == a.board
    &&& b.team.len() == a.team.len()
    &&& forall|i: int| 0 <= i < a.team.len() ==> (#[trigger] b.team[i]).id == a.team[i].id
    &&& forall|i: int| 0 <= i < a.team.len() ==> (#[trigger] b.team[i]).state == a.team[i].state
    &&& forall|i: int|
        0 <= i < a.team.len() ==> (#[trigger] b.team[i]).profile == a.team[i].profile
    &&& replayed(b.events) == replayed(a.events)
    &&& agents_replayed(b.events) == agents_replayed(a.events)
}

proof fn lemma_quiet(a: WorldView, b: WorldView)
    requires
        quiet(a, b),
    ensures
        mirrored(a) ==> mirrored(b),
        shadowed(a) ==> shadowed(b),
        in_step(a) ==> in_step(b),
{
    if in_step(a) {
        assert forall|i: int| 0 <= i < b.team.len() implies fits(b.board, #[trigger] b.team[i]) by {
            assert(b.team[i].id == a.team[i].id);
            assert(b.team[i].state == a.team[i].state);
            assert(fits(a.board, a.team[i]));
        }
        assert forall|i: int, j: int|
            0 <= i < b.team.len() && 0 <= j < b.team.len() && (#[trigger] b.team[i]).id == (
            #[trigger] b.team[j]).id implies i == j by {
            assert(b.team[i].id == a.team[i].id);
            assert(b.team[j].id == a.team[j].id);
        }
    }
    if shadowed(a) {
        let agents = agents_replayed(b.events);
        assert forall|i: int| 0 <= i < b.team.len() implies (#[trigger] b.team[i]).id
            == agents[i].handle by {
            assert(a.team[i].id == agents[i].handle);
        }
        assert forall|i: int| 0 <= i < b.team.len() implies (#[trigger] b.team[i]).profile.slug
            == agents[i].specialty by {
            assert(a.team[i].profile.slug == agents[i].specialty);
        }
        assert forall|i: int| 0 <= i < b.team.len() implies seen_as(
            (#[trigger] b.team[i]).state,
            agents[i].state,
        ) by {
            assert(seen_as(a.team[i].state, agents[i].state));
        }
    }
}

proof fn lemma_quiet_trans(a: WorldView, b: WorldView, c: WorldView)
    requires
        quiet(a, b),
        quiet(b, c),
    ensures
        quiet(a, c),
{
    assert forall|i: int| 0 <= i < a.team.len() implies (#[trigger] c.team[i]).id
        == a.team[i].id by {
        assert(b.team[i].id == a.team[i].id);
    }
    assert forall|i: int| 0 <= i < a.team.len() implies (#[trigger] c.team[i]).state
        == a.team[i].state by {
        assert(b.team[i].state == a.team[i].state);
    }
    assert forall|i: int| 0 <= i < a.team.len() implies (#[trigger] c.team[i]).profile
        == a.team[i].profile by {
        assert(b.team[i].profile == a.team[i].profile);
    }
}

/// One more event is followed on the board and on the agents.
proof fn lemma_log(w: WorldView, source: EventSource, kind: KindView)
    ensures
        ({
            let v = w.log(source, kind);
            let e = w.event(source, kind);
            &&& v.board == w.board
            &&& v.team == w.team
            &&& replayed(v.events) == applied(replayed(w.events), e)
            &&& agents_replayed(v.events) == agents_applied(agents_replayed(w.events), e)
        }),
{
    let v = w.log(source, kind);
    assert(v.events.drop_last() =~= w.events);
}

/// An event that tells of nothing on the board and of no agent.
pub open spec fn aside(kind: KindView) -> bool {
    match kind {
        KindView::RunFinished { .. } => true,
        KindView::CapHit { .. } => true,
        KindView::MessageSent { .. } => true,
        KindView::MessagesDelivered { .. } => true,
        KindView::KnowledgeWritten { .. } => true,
        KindView::TurnCompleted { .. } => true,
        KindView::ParallelismChanged { .. } => true,
        KindView::LivenessNudge { .. } => true,
        KindView::DirectiveIssued { .. } => true,
        KindView::DirectiveFulfilled { .. } => true,
        KindView::DirectiveDeclined { .. } => true,
        KindView::ContextDegraded { .. } => true,
        _ => false,
    }
}

proof fn lemma_aside(w: WorldView, source: EventSource, kind: KindView)
    requires
        aside(kind),
    ensures
        quiet(w, w.log(source, kind)),
{
    lemma_log(w, source, kind);
}

proof fn lemma_fulfilled(w: WorldView, cite: Option<DirectiveId>, by: AgentId)
    ensures
        quiet(w, fulfilled(w, cite, by)),
{
    if let Some(id) = cite {
        let r = resolved(w, id, ResolutionView::Fulfilled { by });
        assert(quiet(w, r));
        let kind = KindView::DirectiveFulfilled { directive: id, by };
        lemma_aside(r, EventSource::Agent(by), kind);
        lemma_quiet_trans(w, r, r.log(EventSource::Agent(by), kind));
    }
}

proof fn lemma_issued(
    w: WorldView,
    from: AgentId,
    tier: DirectiveTier,
    kind: DirectiveKind,
    args: JsonView,
    state: ResolutionView,
)
    ensures
        quiet(w, issued(w, from, tier, kind, args, state)),
        issued(w, from, tier, kind, args, state).team == w.team,
{
    let id = DirectiveId(w.next_directive);
    let r = WorldView {
        next_directive: (w.next_directive + 1) as u64,
        directives: w.directives.push(
            crate::directive::DirectiveView { id, tier, kind, args, from, state },
        ),
        ..w
    };
    assert(quiet(w, r));
    let told = KindView::DirectiveIssued { directive: id, tier, kind, args };
    lemma_aside(r, EventSource::Agent(from), told);
    lemma_quiet_trans(w, r, r.log(EventSource::Agent(from), told));
}

// ---------------------------------------------------------------------------
// Claims after a change of the board.
// ---------------------------------------------------------------------------

proof fn lemma_claim_at(tasks: Seq<TaskView>, agent: AgentId, i: int)
    requires
        i >= 0,
    ensures
        match claim_at(tasks, agent, i) {
            Some(k) => i <= k < tasks.len() && tasks[k].state == (StateView::Claimed {
                by: agent,
            }) && forall|j: int|
                i <= j < k ==> (#[trigger] tasks[j]).state != (StateView::Claimed { by: agent }),
            None => forall|j: int|
                i <= j < tasks.len() ==> (#[trigger] tasks[j]).state != (StateView::Claimed {
                    by: agent,
                }),
        },
    decreases tasks.len() - i,
{
    if i < tasks.len() {
        lemma_claim_at(tasks, agent, i + 1);
    }
}

/// What an agent has claimed is the one task that it claims.
proof fn lemma_claim_id(b: BoardView, agent: AgentId)
    requires
        b.wf(),
    ensures
        match claim_id(b, agent) {
            Some(id) => exists|k: int|
                0 <= k < b.tasks.len() && (#[trigger] b.tasks[k]).id == id && b.tasks[k].state == (
                StateView::Claimed { by: agent }),
            None => forall|k: int|
                0 <= k < b.tasks.len() ==> (#[trigger] b.tasks[k]).state != (StateView::Claimed {
                    by: agent,
                }),
        },
{
    lemma_claim_at(b.tasks, agent, 0);
    if let Some(i) = b.claim_of(agent) {
        assert(0 <= i < b.tasks.len() && b.tasks[i].id == claim_id(b, agent)->0);
    }
}

/// A claim is known by the task that shows it.
proof fn lemma_claim_is(b: BoardView, agent: AgentId, k: int)
    requires
        b.one_claim_each(),
        0 <= k < b.tasks.len(),
        b.tasks[k].state == (StateView::Claimed { by: agent }),
    ensures
        claim_id(b, agent) == Some(b.tasks[k].id),
{
    lemma_claim_at(b.tasks, agent, 0);
    match b.claim_of(agent) {
        Some(i) => {
            assert(b.tasks[i].state == b.tasks[k].state);
        },
        None => {},
    }
}

proof fn lemma_claim_none(b: BoardView, agent: AgentId)
    requires
        forall|k: int|
            0 <= k < b.tasks.len() ==> (#[trigger] b.tasks[k]).state != (StateView::Claimed {
                by: agent,
            }),
    ensures
        claim_id(b, agent) is None,
{
    lemma_claim_at(b.tasks, agent, 0);
}

/// A task that changes its state leaves the claims of others alone.
proof fn lemma_claim_of_others(b: BoardView, i: int, state: StateView, agent: AgentId)
    requires
        b.wf(),
        b.with_state(i, state).one_claim_each(),
        0 <= i < b.tasks.len(),
        b.tasks[i].state != (StateView::Claimed { by: agent }),
        state != (StateView::Claimed { by: agent }),
    ensures
        claim_id(b.with_state(i, state), agent) == claim_id(b, agent),
{
    let c = b.with_state(i, state);
    lemma_claim_id(b, agent);
    match claim_id(b, agent) {
        Some(id) => {
            let k = choose|k: int|
                0 <= k < b.tasks.len() && (#[trigger] b.tasks[k]).id == id && b.tasks[k].state == (
                StateView::Claimed { by: agent });
            assert(c.tasks[k] == b.tasks[k]);
            lemma_claim_is(c, agent, k);
        },
        None => {
            assert forall|k: int| 0 <= k < c.tasks.len() implies (#[trigger] c.tasks[k]).state != (
            StateView::Claimed { by: agent }) by {
                if k != i {
                    assert(c.tasks[k] == b.tasks[k]);
                }
            }
            lemma_claim_none(c, agent);
        },
    }
}

/// A task that is no longer claimed leaves its claimant without a claim.
proof fn lemma_claim_given_up(b: BoardView, i: int, state: StateView, agent: AgentId)
    requires
        b.wf(),
        0 <= i < b.tasks.len(),
        b.tasks[i].state == (StateView::Claimed { by: agent }),
        !(state is Claimed),
    ensures
        claim_id(b.with_state(i, state), agent) is None,
{
    let c = b.with_state(i, state);
    assert forall|k: int| 0 <= k < c.tasks.len() implies (#[trigger] c.tasks[k]).state != (
    StateView::Claimed { by: agent }) by {
        if k != i {
            assert(c.tasks[k] == b.tasks[k]);
            if b.tasks[k].state == (StateView::Claimed { by: agent }) {
                assert(b.tasks[k].state == b.tasks[i].state);
            }
        }
    }
    lemma_claim_none(c, agent);
}

/// A new task leaves all claims alone.
proof fn lemma_claim_of_new(b: BoardView, task: TaskView, agent: AgentId)
    requires
        b.wf(),
        task.state is Open,
    ensures
        claim_id(b.with_task(task), agent) == claim_id(b, agent),
{
    let p = crate::board::place(b.tasks, task.id, 0);
    lemma_searches(b, task.id, agent, Seq::empty(), 0);
    let c = b.with_task(task);
    assert(c.tasks == b.tasks.insert(p, task));
    lemma_claim_id(b, agent);
    assert forall|k: int| 0 <= k < c.tasks.len() implies #[trigger] c.tasks[k] == if k < p {
        b.tasks[k]
    } else if k == p {
        task
    } else {
        b.tasks[k - 1]
    } by {}
    match claim_id(b, agent) {
        Some(id) => {
            let k = choose|k: int|
                0 <= k < b.tasks.len() && (#[trigger] b.tasks[k]).id == id && b.tasks[k].state == (
                StateView::Claimed { by: agent });
            let n = if k < p {
                k
            } else {
                k + 1
            };
            assert(c.tasks[n] == b.tasks[k]);
            assert forall|x: int, y: int|
                0 <= x < c.tasks.len() && 0 <= y < c.tasks.len() && (
                #[trigger] c.tasks[x]).state is Claimed && (#[trigger] c.tasks[y]).state
                    == c.tasks[x].state implies x == y by {
                let bx = if x < p {
                    x
                } else {
                    x - 1
                };
                let by = if y < p {
                    y
                } else {
                    y - 1
                };
                assert(c.tasks[x] == b.tasks[bx]);
                assert(c.tasks[y] == b.tasks[by]);
            }
            lemma_claim_is(c, agent, n);
        },
        None => {
            assert forall|k: int| 0 <= k < c.tasks.len() implies (#[trigger] c.tasks[k]).state != (
            StateView::Claimed { by: agent }) by {
                if k < p {
                    assert(c.tasks[k] == b.tasks[k]);
                } else if k > p {
                    assert(c.tasks[k] == b.tasks[k - 1]);
                }
            }
            lemma_claim_none(c, agent);
        },
    }
}

// ---------------------------------------------------------------------------
// The shadow after a change of one agent.
// ---------------------------------------------------------------------------

proof fn lemma_same_place(team: Seq<SlotView>, agents: Seq<ClientAgent>, agent: AgentId, i: int)
    requires
        shadow(team, agents),
        0 <= i,
    ensures
        slot_at(team, agent, i) == entry_at(agents, agent, i),
    decreases team.len() - i,
{
    if i < team.len() {
        assert(team[i].id == agents[i].handle);
        lemma_same_place(team, agents, agent, i + 1);
    }
}

/// One agent does something else, and clients see it.
proof fn lemma_shadow_state(
    team: Seq<SlotView>,
    agents: Seq<ClientAgent>,
    agent: AgentId,
    slot: SlotView,
    wire: AgentWireState,
)
    requires
        shadow(team, agents),
        slot_at(team, agent, 0) is Some,
        slot.id == agent,
        slot.profile == team[slot_at(team, agent, 0)->0].profile,
        seen_as(slot.state, wire),
    ensures
        shadow(
            team.update(slot_at(team, agent, 0)->0, slot),
            with_wire_state(agents, agent, wire),
        ),
{
    lemma_same_place(team, agents, agent, 0);
    lemma_slot_at(team, agent, 0);
    let k = slot_at(team, agent, 0)->0;
    let t = team.update(k, slot);
    let a = with_wire_state(agents, agent, wire);
    assert forall|i: int| 0 <= i < t.len() implies (#[trigger] t[i]).id == a[i].handle by {
        assert(team[i].id == agents[i].handle);
    }
    assert forall|i: int| 0 <= i < t.len() implies (#[trigger] t[i]).profile.slug
        == a[i].specialty by {
        assert(team[i].profile.slug == agents[i].specialty);
    }
    assert forall|i: int| 0 <= i < t.len() implies seen_as((#[trigger] t[i]).state, a[i].state) by {
        assert(seen_as(team[i].state, agents[i].state));
    }
}

/// What an event tells of someone who is no team agent changes nothing.
proof fn lemma_shadow_other(
    team: Seq<SlotView>,
    agents: Seq<ClientAgent>,
    agent: AgentId,
    wire: AgentWireState,
)
    requires
        shadow(team, agents),
        slot_at(team, agent, 0) is None,
    ensures
        with_wire_state(agents, agent, wire) == agents,
{
    lemma_same_place(team, agents, agent, 0);
}

// ---------------------------------------------------------------------------
// What every verb keeps.
// ---------------------------------------------------------------------------

/// The invariants of a run.
pub open spec fn sound(w: WorldView) -> bool {
    w.board.wf() && mirrored(w) && in_step(w)
}

/// One agent, with a state that fits, does something else; nobody else's claim has changed.
proof fn lemma_in_step_update(w: WorldView, b: BoardView, agent: AgentId, state: AgentState)
    requires
        in_step(w),
        forall|a: AgentId| a != agent ==> #[trigger] claim_id(b, a) == claim_id(w.board, a),
        match state {
            AgentState::Idle => claim_id(b, agent) is None,
            AgentState::Working { task } => claim_id(b, agent) == Some(task),
            AgentState::Asleep => true,
        },
    ensures
        forall|i: int, slot: SlotView|
            slot_at(w.team, agent, 0) == Some(i) && slot.id == agent && slot.state == state
                ==> in_step(
                #[trigger] (WorldView { board: b, ..w }).with_slot(i, slot),
            ),
        slot_at(w.team, agent, 0) is None ==> in_step(WorldView { board: b, ..w }),
{
    lemma_slot_at(w.team, agent, 0);
    let base = WorldView { board: b, ..w };
    assert forall|i: int, slot: SlotView|
        slot_at(w.team, agent, 0) == Some(i) && slot.id == agent && slot.state
            == state implies in_step(#[trigger] base.with_slot(i, slot)) by {
        let v = base.with_slot(i, slot);
        assert forall|x: int, y: int|
            0 <= x < v.team.len() && 0 <= y < v.team.len() && (#[trigger] v.team[x]).id == (
            #[trigger] v.team[y]).id implies x == y by {
            assert(v.team[x].id == w.team[x].id);
            assert(v.team[y].id == w.team[y].id);
        }
        assert forall|x: int| 0 <= x < v.team.len() implies fits(v.board, #[trigger] v.team[x]) by {
            if x != i {
                assert(v.team[x] == w.team[x]);
                assert(w.team[i].id == agent);
                assert(w.team[x].id != agent);
                assert(fits(w.board, w.team[x]));
                assert(claim_id(b, w.team[x].id) == claim_id(w.board, w.team[x].id));
            }
        }
    }
    if slot_at(w.team, agent, 0) is None {
        assert forall|x: int| 0 <= x < base.team.len() implies fits(
            base.board,
            #[trigger] base.team[x],
        ) by {
            assert(w.team[x].id != agent);
            assert(fits(w.board, w.team[x]));
            assert(claim_id(b, w.team[x].id) == claim_id(w.board, w.team[x].id));
        }
    }
}

/// The board changes, and with it no claim.
proof fn lemma_in_step_board(w: WorldView, b: BoardView)
    requires
        in_step(w),
        forall|a: AgentId| #[trigger] claim_id(b, a) == claim_id(w.board, a),
    ensures
        in_step(WorldView { board: b, ..w }),
{
    let v = WorldView { board: b, ..w };
    assert forall|x: int| 0 <= x < v.team.len() implies fits(v.board, #[trigger] v.team[x]) by {
        assert(fits(w.board, w.team[x]));
        assert(claim_id(b, w.team[x].id) == claim_id(w.board, w.team[x].id));
    }
}

/// Logging keeps agents and board in step.
proof fn lemma_in_step_log(w: WorldView, source: EventSource, kind: KindView)
    requires
        in_step(w),
    ensures
        in_step(w.log(source, kind)),
{
    let v = w.log(source, kind);
    assert(v.team == w.team && v.board == w.board);
    assert forall|x: int| 0 <= x < v.team.len() implies fits(v.board, #[trigger] v.team[x]) by {
        assert(fits(w.board, w.team[x]));
    }
}

proof fn lemma_sound_quiet(a: WorldView, b: WorldView)
    requires
        sound(a),
        quiet(a, b),
    ensures
        sound(b),
{
    lemma_quiet(a, b);
}

proof fn lemma_claim_sound(w: WorldView, c: AgentId, id: TaskId)
    requires
        sound(w),
    ensures
        sound(claim_step(w, c, id).0),
{
    if w.board.claim_refusal(c, id) is None {
        let i = w.board.at(id)->0;
        lemma_searches(w.board, id, c, Seq::empty(), 0);
        let state = StateView::Claimed { by: c };
        crate::board::lemma_with_state_wf(w.board, i, state);
        let b = w.board.claimed(c, id);
        assert forall|a: AgentId| a != c implies #[trigger] claim_id(b, a) == claim_id(
            w.board,
            a,
        ) by {
            lemma_claim_of_others(w.board, i, state, a);
        }
        lemma_claim_is(b, c, i);
        lemma_in_step_update(w, b, c, AgentState::Working { task: id });
        lemma_slot_at(w.team, c, 0);
        let base = WorldView { board: b, ..w };
        let v = assigned(base, c, id);
        assert(in_step(v)) by {
            if let Some(k) = slot_at(w.team, c, 0) {
                let slot = SlotView {
                    state: AgentState::Working { task: id },
                    window: Seq::empty(),
                    ..w.team[k]
                };
                assert(v == base.with_slot(k, slot));
            } else {
                assert(v == base);
            }
        }
        let kind = KindView::TaskClaimed { task: id, team: w.board.tasks[i].team };
        lemma_log(v, EventSource::Agent(c), kind);
        lemma_in_step_log(v, EventSource::Agent(c), kind);
    }
}

/// A claim that ends leaves the claims of others alone.
proof fn lemma_claim_ends(b: BoardView, i: int, state: StateView, agent: AgentId)
    requires
        b.wf(),
        0 <= i < b.tasks.len(),
        b.tasks[i].state == (StateView::Claimed { by: agent }),
        !(state is Claimed),
    ensures
        b.with_state(i, state).wf(),
        claim_id(b.with_state(i, state), agent) is None,
        forall|a: AgentId|
            a != agent ==> #[trigger] claim_id(b.with_state(i, state), a) == claim_id(b, a),
{
    crate::board::lemma_with_state_wf(b, i, state);
    lemma_claim_given_up(b, i, state, agent);
    assert forall|a: AgentId| a != agent implies #[trigger] claim_id(b.with_state(i, state), a)
        == claim_id(b, a) by {
        lemma_claim_of_others(b, i, state, a);
    }
}

/// The claimant is idle when its claim has ended.
proof fn lemma_idle_in_step(w: WorldView, v: WorldView, b: BoardView, agent: AgentId)
    requires
        in_step(w),
        claim_id(b, agent) is None,
        forall|a: AgentId| a != agent ==> #[trigger] claim_id(b, a) == claim_id(w.board, a),
        v.team == w.team,
        v.board == b,
    ensures
        in_step(v.with_state(agent, AgentState::Idle)),
{
    lemma_in_step_update(w, b, agent, AgentState::Idle);
    lemma_slot_at(w.team, agent, 0);
    let base = WorldView { board: b, ..w };
    let r = v.with_state(agent, AgentState::Idle);
    if let Some(k) = slot_at(w.team, agent, 0) {
        let slot = SlotView { state: AgentState::Idle, ..w.team[k] };
        let s = base.with_slot(k, slot);
        assert(in_step(s));
        assert(r.team == s.team && r.board == s.board);
    } else {
        assert(r.team == base.team && r.board == base.board);
    }
}

proof fn lemma_complete_sound(w: WorldView, c: AgentId, x: Seq<char>, f: Option<Seq<char>>)
    requires
        sound(w),
    ensures
        sound(complete_step(w, c, x, f).0),
{
    if w.board.claim_of(c) is Some && f is None {
        let i = w.board.claim_of(c)->0;
        lemma_searches(w.board, TaskId(0), c, Seq::empty(), 0);
        let entry = crate::ids::KnowledgeEntryId((w.store.len() + 1) as u64);
        let state = StateView::Done { result: x, result_ref: entry };
        lemma_claim_ends(w.board, i, state, c);
        let b = w.board.completed(c, x, entry);
        let known = learned(w, x, c, crate::knowledge::KnowledgeKind::TaskCompletion);
        let base = WorldView { board: b, ..known };
        lemma_idle_in_step(w, base, b, c);
        let v = base.with_state(c, AgentState::Idle);
        let kind = KindView::TaskCompleted {
            task: w.board.tasks[i].id,
            result: x,
            result_ref: entry,
        };
        lemma_log(v, EventSource::Agent(c), kind);
        lemma_in_step_log(v, EventSource::Agent(c), kind);
        assert(v.events == w.events);
        assert(v.board == b);
    }
}

proof fn lemma_release_sound(w: WorldView, c: AgentId, reason: Option<Seq<char>>)
    requires
        sound(w),
    ensures
        sound(release_step(w, c, reason).0),
{
    if w.board.claim_of(c) is Some {
        let i = w.board.claim_of(c)->0;
        lemma_searches(w.board, TaskId(0), c, Seq::empty(), 0);
        lemma_claim_ends(w.board, i, StateView::Open, c);
        let b = w.board.released(c);
        let base = WorldView { board: b, ..w };
        lemma_idle_in_step(w, base, b, c);
        let v = base.with_state(c, AgentState::Idle);
        let kind = KindView::TaskReleased { task: w.board.tasks[i].id, reason };
        lemma_log(v, EventSource::Agent(c), kind);
        lemma_in_step_log(v, EventSource::Agent(c), kind);
        assert(v.events == w.events);
        assert(v.board == b);
    }
}

proof fn lemma_unassign_sound(
    w: WorldView,
    c: AgentId,
    id: TaskId,
    reason: Option<Seq<char>>,
    cite: Option<u64>,
)
    requires
        sound(w),
    ensures
        sound(unassign_step(w, c, id, reason, cite).0),
{
    match crate::verbs::citation(w, cite) {
        Ok(via) => if w.board.unassign_refusal(id) is None {
            let i = w.board.at(id)->0;
            lemma_searches(w.board, id, c, Seq::empty(), 0);
            let prev = w.board.tasks[i].state->Claimed_by;
            lemma_claim_ends(w.board, i, StateView::Open, prev);
            lemma_claim_is(w.board, prev, i);
            let b = w.board.unassigned(id);
            let base = WorldView { board: b, ..w };
            let v = relieved(base, prev, id);
            assert(in_step(v)) by {
                lemma_slot_at(w.team, prev, 0);
                match slot_at(w.team, prev, 0) {
                    Some(k) => {
                        assert(fits(w.board, w.team[k]));
                        if w.team[k].state == (AgentState::Working { task: id }) {
                            lemma_idle_in_step(w, base, b, prev);
                        } else {
                            assert(w.team[k].state is Asleep);
                            lemma_in_step_update(w, b, prev, AgentState::Asleep);
                            assert(in_step(base.with_slot(k, w.team[k])));
                            assert(w.team.update(k, w.team[k]) =~= w.team);
                        }
                    },
                    None => {
                        lemma_in_step_update(w, b, prev, AgentState::Asleep);
                    },
                }
            }
            let kind = KindView::TaskUnassigned {
                task: id,
                prev_claimant: prev,
                reason,
                via_directive: via,
            };
            lemma_log(v, EventSource::Agent(c), kind);
            lemma_in_step_log(v, EventSource::Agent(c), kind);
            assert(v.events == w.events);
            assert(v.board == b);
            let told = v.log(EventSource::Agent(c), kind);
            assert(sound(told));
            lemma_fulfilled(told, via, c);
            lemma_sound_quiet(told, fulfilled(told, via, c));
        },
        Err(_) => {},
    }
}

proof fn lemma_create_sound(
    w: WorldView,
    c: AgentId,
    title: Seq<char>,
    description: Seq<char>,
    team: Option<Seq<char>>,
)
    requires
        sound(w),
    ensures
        sound(create_step(w, c, title, description, team).0),
{
    let id = TaskId(w.next_task);
    if !(team is Some && !crate::ids::is_tag(team->0)) && w.board.create_refusal(id, team) is None {
        let task = TaskView {
            id,
            title,
            description,
            created_by: c,
            origin_event: crate::ids::EventId(w.next_event),
            team,
            state: StateView::Open,
        };
        crate::board::lemma_with_task_wf(w.board, task);
        let b = w.board.with_task(task);
        assert forall|a: AgentId| #[trigger] claim_id(b, a) == claim_id(w.board, a) by {
            lemma_claim_of_new(w.board, task, a);
        }
        lemma_in_step_board(w, b);
        let v = WorldView { board: b, next_task: (w.next_task + 1) as u64, ..w };
        assert(in_step(v)) by {
            let base = WorldView { board: b, ..w };
            assert(v.team == base.team && v.board == base.board);
        }
        let kind = KindView::TaskCreated { task: id, title, description, team };
        lemma_log(v, EventSource::Agent(c), kind);
        lemma_in_step_log(v, EventSource::Agent(c), kind);
    }
}

proof fn lemma_cancel_sound(w: WorldView, c: AgentId, id: TaskId, reason: Seq<char>)
    requires
        sound(w),
    ensures
        sound(cancel_step(w, c, id, reason).0),
{
    if w.board.cancel_refusal(id) is None {
        let i = w.board.at(id)->0;
        lemma_searches(w.board, id, c, Seq::empty(), 0);
        let state = StateView::Cancelled { reason };
        crate::board::lemma_with_state_wf(w.board, i, state);
        let b = w.board.cancelled(id, reason);
        assert forall|a: AgentId| #[trigger] claim_id(b, a) == claim_id(w.board, a) by {
            lemma_claim_of_others(w.board, i, state, a);
        }
        lemma_in_step_board(w, b);
        let v = WorldView { board: b, ..w };
        let kind = KindView::TaskCancelled { task: id, reason };
        lemma_log(v, EventSource::Agent(c), kind);
        lemma_in_step_log(v, EventSource::Agent(c), kind);
    }
}

/// A change of the teams alone.
proof fn lemma_teams_sound(w: WorldView, b: BoardView, c: AgentId, kind: KindView)
    requires
        sound(w),
        b.wf(),
        b.tasks == w.board.tasks,
        applied(w.board, (WorldView { board: b, ..w }).event(EventSource::Agent(c), kind)) == b,
    ensures
        sound((WorldView { board: b, ..w }).log(EventSource::Agent(c), kind)),
{
    let v = WorldView { board: b, ..w };
    assert forall|a: AgentId| #[trigger] claim_id(b, a) == claim_id(w.board, a) by {}
    lemma_in_step_board(w, b);
    lemma_log(v, EventSource::Agent(c), kind);
    lemma_in_step_log(v, EventSource::Agent(c), kind);
}

proof fn lemma_form_sound(w: WorldView, c: AgentId, team: Seq<char>, handles: Seq<Seq<char>>)
    requires
        sound(w),
    ensures
        sound(form_step(w, c, team, handles).0),
{
    if crate::ids::is_tag(team) {
        if let Ok(members) = crate::verbs::pool_agents(w, handles) {
            if w.board.form_refusal(team) is None {
                crate::board::lemma_formed_wf(w.board, team, members);
                lemma_teams_sound(
                    w,
                    w.board.formed(team, members),
                    c,
                    KindView::TeamFormed { team, members },
                );
            }
        }
    }
}

proof fn lemma_dissolve_sound(w: WorldView, c: AgentId, team: Seq<char>)
    requires
        sound(w),
    ensures
        sound(dissolve_step(w, c, team).0),
{
    if crate::ids::is_tag(team) && w.board.dissolve_refusal(team) is None {
        crate::board::lemma_dissolved_wf(w.board, team);
        lemma_teams_sound(w, w.board.dissolved(team), c, KindView::TeamDissolved { team });
    }
}

proof fn lemma_members_sound(
    w: WorldView,
    c: AgentId,
    team: Seq<char>,
    handles: Seq<Seq<char>>,
    cite: Option<u64>,
)
    requires
        sound(w),
    ensures
        sound(members_step(w, c, team, handles, cite).0),
{
    if let Ok(via) = crate::verbs::citation(w, cite) {
        if crate::ids::is_tag(team) {
            if let Ok(members) = crate::verbs::pool_agents(w, handles) {
                if w.board.members_refusal(team) is None {
                    let former = w.board.teams[w.board.team_of(team)->0].members;
                    let kind = KindView::TeamMembersSet {
                        team,
                        members,
                        added: crate::board::missing_from(members, former),
                        removed: crate::board::missing_from(former, members),
                        via_directive: via,
                    };
                    crate::board::lemma_reteamed_wf(w.board, team, members);
                    let b = w.board.reteamed(team, members);
                    lemma_teams_sound(w, b, c, kind);
                    let told = (WorldView { board: b, ..w }).log(EventSource::Agent(c), kind);
                    lemma_fulfilled(told, via, c);
                    lemma_sound_quiet(told, fulfilled(told, via, c));
                }
            }
        }
    }
}

proof fn lemma_respecialize_sound(
    w: WorldView,
    c: AgentId,
    handle: Seq<char>,
    p: ProfileView,
    cite: Option<u64>,
)
    requires
        sound(w),
    ensures
        sound(respecialize_step(w, c, handle, p, cite).0),
{
    if let Ok(via) = crate::verbs::citation(w, cite) {
        if let Ok(agent) = pool_agent(w, handle) {
            let i = slot_at(w.team, agent, 0)->0;
            lemma_slot_at(w.team, agent, 0);
            if crate::agent::is_slug(p.slug) && w.team[i].state is Idle && !w.team[i].in_flight {
                let slot = respecialized(w, i, p).team[i];
                assert(fits(w.board, w.team[i]));
                lemma_in_step_update(w, w.board, agent, AgentState::Idle);
                let base = WorldView { board: w.board, ..w };
                assert(base == w);
                assert(in_step(base.with_slot(i, slot)));
                let v = respecialized(w, i, p);
                assert(v == base.with_slot(i, slot));
                let kind = KindView::AgentRespecialized {
                    agent,
                    from: w.team[i].profile.slug,
                    to: p.slug,
                    via_directive: via,
                };
                lemma_log(v, EventSource::Agent(c), kind);
                lemma_in_step_log(v, EventSource::Agent(c), kind);
                let told = v.log(EventSource::Agent(c), kind);
                lemma_fulfilled(told, via, c);
                lemma_sound_quiet(told, fulfilled(told, via, c));
            }
        }
    }
}

proof fn lemma_slept_sound(w: WorldView, c: AgentId, target: AgentId, via: Option<DirectiveId>)
    requires
        sound(w),
    ensures
        sound(slept(w, c, target, via)),
{
    let v = w.with_state(target, AgentState::Asleep);
    assert(in_step(v)) by {
        lemma_in_step_update(w, w.board, target, AgentState::Asleep);
        lemma_slot_at(w.team, target, 0);
        let base = WorldView { board: w.board, ..w };
        assert(base == w);
        if let Some(k) = slot_at(w.team, target, 0) {
            assert(v == base.with_slot(k, SlotView { state: AgentState::Asleep, ..w.team[k] }));
        }
    }
    let kind = KindView::AgentSlept { agent: target, via_directive: via };
    lemma_log(v, EventSource::Agent(c), kind);
    lemma_in_step_log(v, EventSource::Agent(c), kind);
}

proof fn lemma_awake_sound(
    w: WorldView,
    c: AgentId,
    target: AgentId,
    via: Option<DirectiveId>,
)
    requires
        sound(w),
        slot_at(w.team, target, 0) is Some,
    ensures
        sound(
            awake(w, target).log(
                EventSource::Agent(c),
                KindView::AgentWoke {
                    agent: target,
                    restored: restored_state(w, target),
                    via_directive: via,
                },
            ),
        ),
{
    let state = state_of(restored_state(w, target));
    let i = slot_at(w.team, target, 0)->0;
    lemma_slot_at(w.team, target, 0);
    lemma_in_step_update(w, w.board, target, state);
    let base = WorldView { board: w.board, ..w };
    assert(base == w);
    let v = awake(w, target);
    assert(v == base.with_slot(i, SlotView { state, malformed: 0, ..w.team[i] }));
    let kind = KindView::AgentWoke {
        agent: target,
        restored: restored_state(w, target),
        via_directive: via,
    };
    lemma_log(v, EventSource::Agent(c), kind);
    lemma_in_step_log(v, EventSource::Agent(c), kind);
}

proof fn lemma_sleep_sound(w: WorldView, c: AgentId, handle: Seq<char>)
    requires
        sound(w),
    ensures
        sound(self_sleep_step(w, c).0),
        sound(sleep_step(w, c, handle).0),
        sound(meta_sleep_step(w, c, handle).0),
{
    lemma_slept_sound(w, c, c, None);
    if let Ok(target) = pool_agent(w, handle) {
        lemma_slept_sound(w, c, target, None);
        let args = crate::verbs::obj1("agent"@, JsonView::Text(target.handle()));
        let state = ResolutionView::Fulfilled { by: c };
        lemma_issued(
            w,
            c,
            DirectiveTier::Mechanical,
            DirectiveKind::SleepAgent,
            args,
            state,
        );
        let told = issued(
            w,
            c,
            DirectiveTier::Mechanical,
            DirectiveKind::SleepAgent,
            args,
            state,
        );
        lemma_sound_quiet(w, told);
        lemma_slept_sound(told, c, target, Some(DirectiveId(w.next_directive)));
    }
}

proof fn lemma_wake_sound(w: WorldView, c: AgentId, handle: Seq<char>)
    requires
        sound(w),
    ensures
        sound(wake_step(w, c, handle).0),
        sound(meta_wake_step(w, c, handle).0),
{
    if let Ok(target) = pool_agent(w, handle) {
        if crate::verbs::wake_refusal(w, target) is None {
            lemma_awake_sound(w, c, target, None);
            let args = crate::verbs::obj1("agent"@, JsonView::Text(target.handle()));
            let state = ResolutionView::Fulfilled { by: c };
            lemma_issued(w, c, DirectiveTier::Mechanical, DirectiveKind::WakeAgent, args, state);
            let told = issued(
                w,
                c,
                DirectiveTier::Mechanical,
                DirectiveKind::WakeAgent,
                args,
                state,
            );
            lemma_sound_quiet(w, told);
            assert(told.board == w.board);
            lemma_awake_sound(told, c, target, Some(DirectiveId(w.next_directive)));
        }
    }
}

proof fn lemma_aside_sound(w: WorldView, v: WorldView, c: AgentId, kind: KindView)
    requires
        sound(w),
        quiet(w, v),
        aside(kind),
    ensures
        sound(v.log(EventSource::Agent(c), kind)),
{
    lemma_aside(v, EventSource::Agent(c), kind);
    lemma_quiet_trans(w, v, v.log(EventSource::Agent(c), kind));
    lemma_sound_quiet(w, v.log(EventSource::Agent(c), kind));
}

proof fn lemma_posted_quiet(
    w: WorldView,
    c: AgentId,
    address: crate::message::AddressView,
    body: Seq<char>,
)
    ensures
        quiet(w, posted(w, c, address, body)),
{
    let p = posted(w, c, address, body);
    let id = crate::ids::MessageId(w.next_message);
    let entry = crate::ids::KnowledgeEntryId((w.store.len() + 1) as u64);
    let known = learned(w, body, c, crate::knowledge::KnowledgeKind::Message);
    let v = WorldView {
        next_message: (w.next_message + 1) as u64,
        messages: w.messages.push(
            crate::message::MessageView {
                id,
                sender: c,
                address,
                body,
                knowledge_ref: entry,
            },
        ),
        ..known
    };
    let kind = KindView::MessageSent { message: id, address, body, knowledge_ref: entry };
    lemma_log(v, EventSource::Agent(c), kind);
    let told = v.log(EventSource::Agent(c), kind);
    assert(p.events == told.events);
    assert(p.team == w.team);
    assert(p.board == w.board);
    assert(v.events == w.events);
}

proof fn lemma_post_sound(
    w: WorldView,
    c: AgentId,
    to: Option<Seq<char>>,
    team: Option<Seq<char>>,
    all: Option<bool>,
    body: Seq<char>,
    f: Option<Seq<char>>,
)
    requires
        sound(w),
    ensures
        sound(post_step(w, c, to, team, all, body, f).0),
{
    if let Ok(address) = crate::verbs::address_of(w, to, team, all) {
        if f is None {
            lemma_posted_quiet(w, c, address, body);
            lemma_sound_quiet(w, posted(w, c, address, body));
        }
    }
}

proof fn lemma_write_sound(w: WorldView, c: AgentId, text: Seq<char>, f: Option<Seq<char>>)
    requires
        sound(w),
    ensures
        sound(write_step(w, c, text, f).0),
{
    if f is None {
        let v = learned(w, text, c, crate::knowledge::KnowledgeKind::Note);
        assert(quiet(w, v));
        let entry = crate::ids::KnowledgeEntryId((w.store.len() + 1) as u64);
        lemma_aside_sound(w, v, c, KindView::KnowledgeWritten { entry, text });
    }
}

proof fn lemma_decline_sound(w: WorldView, c: AgentId, id: DirectiveId, reason: Seq<char>)
    requires
        sound(w),
    ensures
        sound(decline_step(w, c, id, reason).0),
{
    if let Some(i) = crate::verbs::directive_at(w.directives, id, 0) {
        if w.directives[i].tier is Judgment && w.directives[i].state is Pending {
            let v = resolved(w, id, ResolutionView::Declined { by: c, reason });
            assert(quiet(w, v));
            lemma_aside_sound(
                w,
                v,
                c,
                KindView::DirectiveDeclined {
                    directive: id,
                    kind: w.directives[i].kind,
                    reason,
                    by: c,
                },
            );
        }
    }
}

proof fn lemma_parallel_sound(w: WorldView, c: AgentId, n: u32)
    requires
        sound(w),
    ensures
        sound(parallel_step(w, c, n).0),
{
    let target = crate::verbs::granted(w, n);
    let args = crate::verbs::obj1("target"@, crate::verbs::num(n as u64));
    let state = ResolutionView::Fulfilled { by: c };
    lemma_issued(w, c, DirectiveTier::Mechanical, DirectiveKind::SetParallelism, args, state);
    let told = issued(
        w,
        c,
        DirectiveTier::Mechanical,
        DirectiveKind::SetParallelism,
        args,
        state,
    );
    let v = retuned(told, target);
    assert(quiet(told, v));
    lemma_quiet_trans(w, told, v);
    lemma_aside_sound(
        w,
        v,
        c,
        KindView::ParallelismChanged {
            requested: n,
            effective: crate::context::low32(target as nat),
            via_directive: DirectiveId(w.next_directive),
        },
    );
}

proof fn lemma_propose_sound(w: WorldView, c: AgentId, kind: DirectiveKind, raw: Seq<char>)
    requires
        sound(w),
    ensures
        sound(propose_step(w, c, kind, raw).0),
{
    let args = match crate::json::parsed_json(raw) {
        Some(v) => v,
        None => JsonView::Null,
    };
    lemma_issued(w, c, DirectiveTier::Judgment, kind, args, ResolutionView::Pending);
    lemma_sound_quiet(
        w,
        issued(w, c, DirectiveTier::Judgment, kind, args, ResolutionView::Pending),
    );
}

proof fn lemma_args_sound(w: WorldView, role: Role, c: AgentId, args: VerbArgs, replies: Replies)
    requires
        sound(w),
    ensures
        sound(args_step(w, role, c, args, replies).0),
{
    let f = fault(replies.embedded);
    match args {
        VerbArgs::ClaimTask(a) => lemma_claim_sound(w, c, TaskId(a.task)),
        VerbArgs::CompleteTask(a) => lemma_complete_sound(w, c, a.result@, f),
        VerbArgs::ReleaseTask(a) => lemma_release_sound(w, c, text_view(a.reason)),
        VerbArgs::PostMessage(a) => lemma_post_sound(
            w,
            c,
            text_view(a.to),
            text_view(a.team),
            a.broadcast,
            a.body@,
            f,
        ),
        VerbArgs::WriteKnowledge(a) => lemma_write_sound(w, c, a.text@, f),
        VerbArgs::SearchKnowledge(_) => {},
        VerbArgs::Sleep(_) => lemma_sleep_sound(w, c, Seq::empty()),
        VerbArgs::CreateTask(a) => lemma_create_sound(
            w,
            c,
            a.title@,
            a.description@,
            text_view(a.team),
        ),
        VerbArgs::CancelTask(a) => lemma_cancel_sound(w, c, TaskId(a.task), a.reason@),
        VerbArgs::UnassignTask(a) => lemma_unassign_sound(
            w,
            c,
            TaskId(a.task),
            text_view(a.reason),
            a.in_response_to,
        ),
        VerbArgs::FormTeam(a) => lemma_form_sound(w, c, a.team@, texts(a.members@)),
        VerbArgs::DissolveTeam(a) => lemma_dissolve_sound(w, c, a.team@),
        VerbArgs::SetTeamMembers(a) => lemma_members_sound(
            w,
            c,
            a.team@,
            texts(a.members@),
            a.in_response_to,
        ),
        VerbArgs::Respecialize(a) => lemma_respecialize_sound(
            w,
            c,
            a.agent@,
            profile_of(a),
            a.in_response_to,
        ),
        VerbArgs::SleepAgent(a) => lemma_sleep_sound(w, c, a.agent@),
        VerbArgs::WakeAgent(a) => lemma_wake_sound(w, c, a.agent@),
        VerbArgs::DeclineDirective(a) => lemma_decline_sound(
            w,
            c,
            DirectiveId(a.directive),
            a.reason@,
        ),
        VerbArgs::FinishRun(a) => {
            let v = finish_step(w, a.report@).0;
            assert(quiet(w, v));
            lemma_sound_quiet(w, v);
        },
        VerbArgs::SetParallelism(a) => lemma_parallel_sound(w, c, a.target),
        VerbArgs::Propose(kind, raw) => lemma_propose_sound(w, c, kind, raw@),
    }
}

/// Whatever is called, by whomever: the board stays within its rules and remains the one that the
/// log describes, and what each team agent does remains in step with what it has claimed.
pub proof fn calls_keep_runs_sound(
    w: WorldView,
    tools: Seq<ToolView>,
    role: Role,
    caller: AgentId,
    name: Seq<char>,
    decoded: Result<VerbArgs, String>,
    replies: Replies,
)
    requires
        sound(w),
    ensures
        sound(call_step(w, tools, role, caller, name, decoded, replies).0),
{
    if let Ok(args) = decoded {
        lemma_args_sound(w, role, caller, args, replies);
    }
}

// ---------------------------------------------------------------------------
// What starting, turns and the scheduler keep.
// ---------------------------------------------------------------------------

/// A run starts sound, and its agents are those that the log describes.
pub proof fn runs_start_sound(config: RunConfig, run_id: RunId, now: Timestamp)
    requires
        config.agents <= u32::MAX,
    ensures
        ({
            let w = blank_world(config, now).log(
                EventSource::System,
                start_event(config, run_id),
            );
            sound(w) && shadowed(w)
        }),
{
    let b = blank_world(config, now);
    let kind = start_event(config, run_id);
    lemma_log(b, EventSource::System, kind);
    let w = b.log(EventSource::System, kind);
    assert(b.events.len() == 0);
    assert forall|i: int| 0 <= i < w.team.len() implies fits(w.board, #[trigger] w.team[i]) by {
        lemma_claim_at(w.board.tasks, w.team[i].id, 0);
    }
    assert(agents_replayed(w.events) == booted(config.agents as u32));
}

proof fn lemma_capped_quiet(
    w: WorldView,
    cap: crate::event::CapKind,
    limit: u64,
    seen: u64,
)
    ensures
        quiet(w, w.capped(cap, limit, seen)),
{
    if w.finishing is None {
        let hit = KindView::CapHit { cap, limit, observed: seen };
        let end = KindView::RunFinished {
            reason: crate::event::RunFinishReason::CapHit(cap),
            exit_code: 2,
        };
        let a = w.log(EventSource::System, hit);
        let b = a.log(EventSource::System, end);
        lemma_aside(w, EventSource::System, hit);
        lemma_aside(a, EventSource::System, end);
        lemma_quiet_trans(w, a, b);
        lemma_quiet_trans(w, b, w.capped(cap, limit, seen));
    }
}

proof fn lemma_failed_quiet(w: WorldView, message: Seq<char>)
    ensures
        quiet(w, w.failed(message)),
{
    if w.finishing is None {
        let end = KindView::RunFinished {
            reason: crate::event::RunFinishReason::HarnessError,
            exit_code: 1,
        };
        let a = WorldView { harness_error: Some(message), ..w };
        let b = a.log(EventSource::System, end);
        lemma_aside(a, EventSource::System, end);
        lemma_quiet_trans(w, a, b);
        lemma_quiet_trans(w, b, w.failed(message));
    }
}

proof fn lemma_over_quiet(w: WorldView, agent: AgentId, role: Role)
    ensures
        quiet(w, turn_over(w, agent, role)),
{
    lemma_slot_at(w.team, agent, 0);
}

proof fn lemma_opened_quiet(w: WorldView, agent: AgentId, role: Role)
    requires
        crate::turn::known(w, agent, role),
    ensures
        quiet(w, opened(w, agent, role)),
{
    lemma_slot_at(w.team, agent, 0);
}

/// A turn that begins changes neither the board nor what any agent does.
pub proof fn beginnings_keep_runs_sound(
    w: WorldView,
    agent: AgentId,
    role: Role,
    pool: Option<usize>,
    hits: Seq<ScoredEntry>,
)
    ensures
        sound(w) ==> sound(begun(w, agent, role, pool, hits)),
        shadowed(w) ==> shadowed(begun(w, agent, role, pool, hits)),
{
    let r = begun(w, agent, role, pool, hits);
    if w.finishing is Some {
        lemma_over_quiet(w, agent, role);
    } else {
        let sections = crate::turn::prompt_sections(w, agent, role, pool, hits);
        let n = crate::context::drained_in(sections);
        let lost = crate::context::degraded_in(
            &crate::context::CharCountTokenizer,
            crate::context::role_sections(role),
            sections,
        );
        let d = delivered(w, agent, n);
        assert(quiet(w, d)) by {
            if n != 0 {
                let k = crate::turn::takeable(w, agent, n);
                let v = WorldView { mail: crate::message::unmailed(w.mail, agent, k), ..w };
                let kind = KindView::MessagesDelivered {
                    delivered: crate::message::mail_for(w.mail, agent).take(k),
                };
                lemma_aside(v, EventSource::Agent(agent), kind);
                lemma_quiet_trans(w, v, d);
            }
        }
        let t = degraded(d, agent, lost);
        assert(quiet(d, t)) by {
            if lost.len() != 0 {
                lemma_aside(
                    d,
                    EventSource::Agent(agent),
                    KindView::ContextDegraded { agent, sections: lost },
                );
            }
        }
        lemma_quiet_trans(w, d, t);
        if crate::turn::known(t, agent, role) {
            lemma_opened_quiet(t, agent, role);
        } else {
            lemma_over_quiet(t, agent, role);
        }
        lemma_quiet_trans(w, t, r);
    }
    lemma_quiet(w, r);
}

/// A completion, granted or refused or failed, changes neither the board nor what any agent does.
pub proof fn completions_keep_runs_sound(
    w: WorldView,
    agent: AgentId,
    role: Role,
    max: Option<u64>,
    message: Seq<char>,
)
    ensures
        sound(w) ==> sound(admitted(w, agent, role, max).0),
        shadowed(w) ==> shadowed(admitted(w, agent, role, max).0),
        sound(w) ==> sound(broken(w, agent, role, message)),
        shadowed(w) ==> shadowed(broken(w, agent, role, message)),
{
    let a = admitted(w, agent, role, max).0;
    assert(quiet(w, a)) by {
        if let Some(m) = max {
            if w.llm_calls >= m {
                let c = w.capped(crate::event::CapKind::MaxLlmCalls, m, w.llm_calls);
                lemma_capped_quiet(w, crate::event::CapKind::MaxLlmCalls, m, w.llm_calls);
                lemma_over_quiet(c, agent, role);
                lemma_quiet_trans(w, c, a);
            }
        }
    }
    lemma_quiet(w, a);
    let f = w.failed(message);
    lemma_failed_quiet(w, message);
    lemma_over_quiet(f, agent, role);
    lemma_quiet_trans(w, f, broken(w, agent, role, message));
    lemma_quiet(w, broken(w, agent, role, message));
}

/// Remembering a call changes neither the board nor what any agent does.
pub proof fn memories_keep_runs_sound(w: WorldView, agent: AgentId, role: Role, line: Seq<char>)
    ensures
        sound(w) ==> sound(remembered(w, agent, role, line)),
        shadowed(w) ==> shadowed(remembered(w, agent, role, line)),
{
    lemma_slot_at(w.team, agent, 0);
    let r = remembered(w, agent, role, line);
    assert(quiet(w, r));
    lemma_quiet(w, r);
}

proof fn lemma_weighed(w: WorldView, p: TurnProgress)
    ensures
        sound(w) ==> sound(weighed(w, p)),
        shadowed(w) ==> shadowed(weighed(w, p)),
{
    lemma_slot_at(w.team, p.agent, 0);
    let r = weighed(w, p);
    match slot_at(w.team, p.agent, 0) {
        None => {},
        Some(i) => {
            let count = (w.team[i].malformed + 1) as u32;
            if p.malformed() && count >= crate::world::MALFORMED_PARK_K {
                let slot = SlotView { malformed: count, state: AgentState::Asleep, ..w.team[i] };
                let v = w.with_slot(i, slot);
                let kind = KindView::AgentParked { agent: p.agent, count };
                lemma_log(v, EventSource::Agent(p.agent), kind);
                if sound(w) {
                    lemma_in_step_update(w, w.board, p.agent, AgentState::Asleep);
                    let base = WorldView { board: w.board, ..w };
                    assert(base == w);
                    assert(v == base.with_slot(i, slot));
                    lemma_in_step_log(v, EventSource::Agent(p.agent), kind);
                }
                if shadowed(w) {
                    lemma_shadow_state(
                        w.team,
                        agents_replayed(w.events),
                        p.agent,
                        slot,
                        AgentWireState::Parked,
                    );
                }
            } else {
                assert(quiet(w, r));
                lemma_quiet(w, r);
            }
        },
    }
}

/// The end of a turn keeps a run sound, also where it parks the agent, which keeps its claim.
pub proof fn endings_keep_runs_sound(
    w: WorldView,
    p: TurnProgress,
    outcome: TurnOutcome,
    max_ticks: Option<u64>,
    io_error: Option<Seq<char>>,
)
    ensures
        sound(w) ==> sound(ended(w, p, outcome, max_ticks, io_error)),
        shadowed(w) ==> shadowed(ended(w, p, outcome, max_ticks, io_error)),
{
    let done = settled(w, p, outcome, max_ticks);
    if w.finishing is None {
        let kind = crate::turn::turn_event(p, outcome);
        let logged = w.log(EventSource::Agent(p.agent), kind);
        lemma_aside(w, EventSource::Agent(p.agent), kind);
        lemma_quiet(w, logged);
        let counted = match p.role {
            Role::Orchestrator => ticked(logged, max_ticks),
            Role::TeamAgent => weighed(logged, p),
            Role::MetaAgent => logged,
        };
        match p.role {
            Role::Orchestrator => {
                let ticks = (logged.ticks + 1) as u64;
                let c = WorldView { ticks, ..logged };
                assert(quiet(logged, c));
                if let Some(m) = max_ticks {
                    lemma_capped_quiet(c, crate::event::CapKind::MaxTicks, m, ticks);
                    lemma_quiet_trans(
                        logged,
                        c,
                        c.capped(crate::event::CapKind::MaxTicks, m, ticks),
                    );
                }
                lemma_quiet(logged, counted);
            },
            Role::TeamAgent => {
                lemma_weighed(logged, p);
            },
            Role::MetaAgent => {},
        }
        let end = KindView::RunFinished {
            reason: crate::event::RunFinishReason::CleanFinish,
            exit_code: 0,
        };
        let source = EventSource::Agent(AgentId::Orchestrator);
        lemma_aside(counted, source, end);
        if p.finish_hit && counted.finish_requested && counted.finishing is None {
            lemma_quiet_trans(counted, counted.log(source, end), done);
        } else {
            assert(quiet(counted, done));
        }
        lemma_quiet(counted, done);
    }
    let checked = match io_error {
        Some(e) => done.failed("events.jsonl write failed: "@ + e),
        None => done,
    };
    if let Some(e) = io_error {
        lemma_failed_quiet(done, "events.jsonl write failed: "@ + e);
        lemma_quiet(done, checked);
    }
    lemma_over_quiet(checked, p.agent, p.role);
    lemma_quiet(checked, turn_over(checked, p.agent, p.role));
}

proof fn lemma_plan_metas_quiet(start: Planned, n: int)
    ensures
        quiet(start.0, plan_metas(start, n).0),
    decreases n,
{
    if n > 0 {
        lemma_plan_metas_quiet(start, n - 1);
        lemma_quiet_trans(start.0, plan_metas(start, n - 1).0, plan_metas(start, n).0);
    }
}

proof fn lemma_plan_team_quiet(start: Planned, n: int)
    requires
        n <= start.0.team.len(),
    ensures
        quiet(start.0, plan_team(start, n).0),
    decreases n,
{
    if n > 0 {
        lemma_plan_team_quiet(start, n - 1);
        lemma_quiet_trans(start.0, plan_team(start, n - 1).0, plan_team(start, n).0);
    }
}

proof fn lemma_plan_quiet(w: WorldView)
    ensures
        quiet(w, plan(w).0),
{
    if w.finishing is None {
        let d = crate::schedule::debt_settled(w);
        let s = plan_orchestrator(d);
        assert(quiet(w, s.0));
        let m = plan_metas(s, w.metas.len() as int);
        lemma_plan_metas_quiet(s, w.metas.len() as int);
        lemma_quiet_trans(w, s.0, m.0);
        lemma_plan_team_quiet(m, w.team.len() as int);
        lemma_quiet_trans(w, m.0, plan(w).0);
    }
}

/// Planning turns and watching over the run change neither the board nor what any agent does.
pub proof fn scheduling_keeps_runs_sound(w: WorldView, io_error: Option<Seq<char>>)
    ensures
        sound(w) ==> sound(crate::schedule::scheduled(w, io_error).0),
        shadowed(w) ==> shadowed(crate::schedule::scheduled(w, io_error).0),
        sound(w) ==> sound(crate::schedule::watched(w).0),
        shadowed(w) ==> shadowed(crate::schedule::watched(w).0),
{
    let checked = match io_error {
        Some(e) => w.failed("events.jsonl write failed: "@ + e),
        None => w,
    };
    if let Some(e) = io_error {
        lemma_failed_quiet(w, "events.jsonl write failed: "@ + e);
    }
    assert(quiet(w, checked));
    lemma_plan_quiet(checked);
    let s = crate::schedule::scheduled(w, io_error).0;
    lemma_quiet_trans(w, checked, plan(checked).0);
    assert(quiet(w, s));
    lemma_quiet(w, s);
    let v = crate::schedule::watched(w).0;
    assert(quiet(w, v)) by {
        if w.finishing is None && w.stalled() && !w.busy() {
            let tasks = w.board.tasks.len() as int;
            let kind = KindView::LivenessNudge {
                board_open: crate::context::low32(w.open_count(tasks)),
                claimed_by_asleep: crate::context::low32(w.stuck_count(tasks)),
            };
            lemma_aside(w, EventSource::System, kind);
            lemma_quiet_trans(w, w.log(EventSource::System, kind), v);
        }
    }
    lemma_quiet(w, v);
}

// ---------------------------------------------------------------------------
// What the log tells of the agents.
// ---------------------------------------------------------------------------

/// One agent does something else, and an event tells it.
proof fn lemma_told(
    w: WorldView,
    v: WorldView,
    source: EventSource,
    kind: KindView,
    agent: AgentId,
    wire: AgentWireState,
)
    requires
        shadowed(w),
        v.events == w.events,
        agents_applied(agents_replayed(w.events), v.event(source, kind)) == with_wire_state(
            agents_replayed(w.events),
            agent,
            wire,
        ),
        match slot_at(w.team, agent, 0) {
            Some(i) => {
                &&& v.team == w.team.update(i, v.team[i])
                &&& v.team[i].id == agent
                &&& v.team[i].profile == w.team[i].profile
                &&& seen_as(v.team[i].state, wire)
            },
            None => v.team == w.team,
        },
    ensures
        shadowed(v.log(source, kind)),
{
    lemma_log(v, source, kind);
    let agents = agents_replayed(w.events);
    match slot_at(w.team, agent, 0) {
        Some(i) => {
            lemma_shadow_state(w.team, agents, agent, v.team[i], wire);
        },
        None => {
            lemma_shadow_other(w.team, agents, agent, wire);
        },
    }
}

proof fn lemma_claim_shadow(w: WorldView, c: AgentId, id: TaskId)
    requires
        shadowed(w),
    ensures
        shadowed(claim_step(w, c, id).0),
{
    if w.board.claim_refusal(c, id) is None {
        lemma_slot_at(w.team, c, 0);
        let v = assigned(WorldView { board: w.board.claimed(c, id), ..w }, c, id);
        let kind = KindView::TaskClaimed {
            task: id,
            team: w.board.tasks[w.board.at(id)->0].team,
        };
        lemma_told(
            w,
            v,
            EventSource::Agent(c),
            kind,
            c,
            AgentWireState::Working { task: id },
        );
    }
}

proof fn lemma_complete_shadow(w: WorldView, c: AgentId, x: Seq<char>, f: Option<Seq<char>>)
    requires
        shadowed(w),
    ensures
        shadowed(complete_step(w, c, x, f).0),
{
    if w.board.claim_of(c) is Some && f is None {
        lemma_slot_at(w.team, c, 0);
        let entry = crate::ids::KnowledgeEntryId((w.store.len() + 1) as u64);
        let known = learned(w, x, c, crate::knowledge::KnowledgeKind::TaskCompletion);
        let v = WorldView { board: w.board.completed(c, x, entry), ..known }.with_state(
            c,
            AgentState::Idle,
        );
        let kind = KindView::TaskCompleted {
            task: w.board.tasks[w.board.claim_of(c)->0].id,
            result: x,
            result_ref: entry,
        };
        lemma_told(w, v, EventSource::Agent(c), kind, c, AgentWireState::Idle);
    }
}

proof fn lemma_release_shadow(w: WorldView, c: AgentId, reason: Option<Seq<char>>)
    requires
        shadowed(w),
    ensures
        shadowed(release_step(w, c, reason).0),
{
    if w.board.claim_of(c) is Some {
        lemma_slot_at(w.team, c, 0);
        let v = WorldView { board: w.board.released(c), ..w }.with_state(c, AgentState::Idle);
        let kind = KindView::TaskReleased {
            task: w.board.tasks[w.board.claim_of(c)->0].id,
            reason,
        };
        lemma_told(w, v, EventSource::Agent(c), kind, c, AgentWireState::Idle);
    }
}

/// The task is claimed by an agent that sleeps.
pub open spec fn claimed_asleep(w: WorldView, id: TaskId) -> bool {
    match w.board.at(id) {
        Some(i) => match w.board.tasks[i].state {
            StateView::Claimed { by } => match slot_at(w.team, by, 0) {
                Some(k) => w.team[k].state is Asleep,
                None => false,
            },
            _ => false,
        },
        None => false,
    }
}

proof fn lemma_unassign_shadow(
    w: WorldView,
    c: AgentId,
    id: TaskId,
    reason: Option<Seq<char>>,
    cite: Option<u64>,
)
    requires
        shadowed(w),
        w.board.wf(),
        in_step(w),
        !claimed_asleep(w, id),
    ensures
        shadowed(unassign_step(w, c, id, reason, cite).0),
{
    if let Ok(via) = crate::verbs::citation(w, cite) {
        if w.board.unassign_refusal(id) is None {
            let i = w.board.at(id)->0;
            lemma_searches(w.board, id, c, Seq::empty(), 0);
            let prev = w.board.tasks[i].state->Claimed_by;
            lemma_claim_is(w.board, prev, i);
            lemma_slot_at(w.team, prev, 0);
            let v = relieved(WorldView { board: w.board.unassigned(id), ..w }, prev, id);
            let kind = KindView::TaskUnassigned {
                task: id,
                prev_claimant: prev,
                reason,
                via_directive: via,
            };
            if let Some(k) = slot_at(w.team, prev, 0) {
                assert(fits(w.board, w.team[k]));
                assert(w.team[k].state == (AgentState::Working { task: id }));
            }
            lemma_told(w, v, EventSource::Agent(c), kind, prev, AgentWireState::Idle);
            let told = v.log(EventSource::Agent(c), kind);
            lemma_fulfilled(told, via, c);
            lemma_quiet(told, fulfilled(told, via, c));
        }
    }
}

/// The board changes, and an event tells nothing of agents.
proof fn lemma_board_shadow(w: WorldView, v: WorldView, c: AgentId, kind: KindView)
    requires
        shadowed(w),
        v.team == w.team,
        v.events == w.events,
        agents_applied(
            agents_replayed(w.events),
            v.event(EventSource::Agent(c), kind),
        ) == agents_replayed(w.events),
    ensures
        shadowed(v.log(EventSource::Agent(c), kind)),
{
    lemma_log(v, EventSource::Agent(c), kind);
}

proof fn lemma_board_verbs_shadow(
    w: WorldView,
    c: AgentId,
    id: TaskId,
    x: Seq<char>,
    y: Seq<char>,
    team: Option<Seq<char>>,
    handles: Seq<Seq<char>>,
    cite: Option<u64>,
)
    requires
        shadowed(w),
    ensures
        shadowed(create_step(w, c, x, y, team).0),
        shadowed(cancel_step(w, c, id, x).0),
        shadowed(form_step(w, c, x, handles).0),
        shadowed(dissolve_step(w, c, x).0),
        shadowed(members_step(w, c, x, handles, cite).0),
{
    let new = TaskId(w.next_task);
    let task = TaskView {
        id: new,
        title: x,
        description: y,
        created_by: c,
        origin_event: crate::ids::EventId(w.next_event),
        team,
        state: StateView::Open,
    };
    lemma_board_shadow(
        w,
        WorldView {
            board: w.board.with_task(task),
            next_task: (w.next_task + 1) as u64,
            ..w
        },
        c,
        KindView::TaskCreated { task: new, title: x, description: y, team },
    );
    lemma_board_shadow(
        w,
        WorldView { board: w.board.cancelled(id, x), ..w },
        c,
        KindView::TaskCancelled { task: id, reason: x },
    );
    lemma_board_shadow(
        w,
        WorldView { board: w.board.dissolved(x), ..w },
        c,
        KindView::TeamDissolved { team: x },
    );
    if let Ok(members) = crate::verbs::pool_agents(w, handles) {
        lemma_board_shadow(
            w,
            WorldView { board: w.board.formed(x, members), ..w },
            c,
            KindView::TeamFormed { team: x, members },
        );
        if let Ok(via) = crate::verbs::citation(w, cite) {
            let former = w.board.teams[w.board.team_of(x)->0].members;
            let kind = KindView::TeamMembersSet {
                team: x,
                members,
                added: crate::board::missing_from(members, former),
                removed: crate::board::missing_from(former, members),
                via_directive: via,
            };
            let v = WorldView { board: w.board.reteamed(x, members), ..w };
            lemma_board_shadow(w, v, c, kind);
            let told = v.log(EventSource::Agent(c), kind);
            lemma_fulfilled(told, via, c);
            lemma_quiet(told, fulfilled(told, via, c));
        }
    }
}

proof fn lemma_respecialize_shadow(
    w: WorldView,
    c: AgentId,
    handle: Seq<char>,
    p: ProfileView,
    cite: Option<u64>,
)
    requires
        shadowed(w),
    ensures
        shadowed(respecialize_step(w, c, handle, p, cite).0),
{
    if let Ok(via) = crate::verbs::citation(w, cite) {
        if let Ok(agent) = pool_agent(w, handle) {
            let i = slot_at(w.team, agent, 0)->0;
            lemma_slot_at(w.team, agent, 0);
            if crate::agent::is_slug(p.slug) && w.team[i].state is Idle && !w.team[i].in_flight {
                let v = respecialized(w, i, p);
                let kind = KindView::AgentRespecialized {
                    agent,
                    from: w.team[i].profile.slug,
                    to: p.slug,
                    via_directive: via,
                };
                let told = v.log(EventSource::Agent(c), kind);
                lemma_log(v, EventSource::Agent(c), kind);
                let agents = agents_replayed(w.events);
                lemma_same_place(w.team, agents, agent, 0);
                let after = with_specialty(agents, agent, p.slug);
                assert(agents_replayed(told.events) == after);
                assert(shadow(v.team, after)) by {
                    assert forall|k: int| 0 <= k < v.team.len() implies (#[trigger] v.team[k]).id
                        == after[k].handle by {
                        assert(w.team[k].id == agents[k].handle);
                    }
                    assert forall|k: int| 0 <= k < v.team.len() implies (
                    #[trigger] v.team[k]).profile.slug == after[k].specialty by {
                        assert(w.team[k].profile.slug == agents[k].specialty);
                    }
                    assert forall|k: int| 0 <= k < v.team.len() implies seen_as(
                        (#[trigger] v.team[k]).state,
                        after[k].state,
                    ) by {
                        assert(seen_as(w.team[k].state, agents[k].state));
                    }
                }
                lemma_fulfilled(told, via, c);
                lemma_quiet(told, fulfilled(told, via, c));
            }
        }
    }
}

proof fn lemma_slept_shadow(w: WorldView, c: AgentId, target: AgentId, via: Option<DirectiveId>)
    requires
        shadowed(w),
    ensures
        shadowed(slept(w, c, target, via)),
{
    lemma_slot_at(w.team, target, 0);
    let v = w.with_state(target, AgentState::Asleep);
    let kind = KindView::AgentSlept { agent: target, via_directive: via };
    lemma_told(w, v, EventSource::Agent(c), kind, target, AgentWireState::Asleep);
}

proof fn lemma_awake_shadow(w: WorldView, c: AgentId, target: AgentId, via: Option<DirectiveId>)
    requires
        shadowed(w),
        slot_at(w.team, target, 0) is Some,
    ensures
        shadowed(
            awake(w, target).log(
                EventSource::Agent(c),
                KindView::AgentWoke {
                    agent: target,
                    restored: restored_state(w, target),
                    via_directive: via,
                },
            ),
        ),
{
    lemma_slot_at(w.team, target, 0);
    let r = restored_state(w, target);
    let kind = KindView::AgentWoke { agent: target, restored: r, via_directive: via };
    lemma_told(
        w,
        awake(w, target),
        EventSource::Agent(c),
        kind,
        target,
        crate::serve::fold::restored_state(r),
    );
}

proof fn lemma_sleep_wake_shadow(w: WorldView, c: AgentId, handle: Seq<char>)
    requires
        shadowed(w),
    ensures
        shadowed(self_sleep_step(w, c).0),
        shadowed(sleep_step(w, c, handle).0),
        shadowed(meta_sleep_step(w, c, handle).0),
        shadowed(wake_step(w, c, handle).0),
        shadowed(meta_wake_step(w, c, handle).0),
{
    lemma_slept_shadow(w, c, c, None);
    if let Ok(target) = pool_agent(w, handle) {
        let args = crate::verbs::obj1("agent"@, JsonView::Text(target.handle()));
        let state = ResolutionView::Fulfilled { by: c };
        let tier = DirectiveTier::Mechanical;
        let via = Some(DirectiveId(w.next_directive));
        lemma_slept_shadow(w, c, target, None);
        lemma_issued(w, c, tier, DirectiveKind::SleepAgent, args, state);
        let s = issued(w, c, tier, DirectiveKind::SleepAgent, args, state);
        lemma_quiet(w, s);
        lemma_slept_shadow(s, c, target, via);
        if crate::verbs::wake_refusal(w, target) is None {
            lemma_awake_shadow(w, c, target, None);
            lemma_issued(w, c, tier, DirectiveKind::WakeAgent, args, state);
            let t = issued(w, c, tier, DirectiveKind::WakeAgent, args, state);
            lemma_quiet(w, t);
            assert(t.board == w.board);
            lemma_awake_shadow(t, c, target, via);
        }
    }
}

proof fn lemma_other_verbs_shadow(
    w: WorldView,
    c: AgentId,
    x: Seq<char>,
    f: Option<Seq<char>>,
    d: DirectiveId,
    n: u32,
    kind: DirectiveKind,
)
    requires
        shadowed(w),
    ensures
        shadowed(write_step(w, c, x, f).0),
        shadowed(decline_step(w, c, d, x).0),
        shadowed(finish_step(w, x).0),
        shadowed(parallel_step(w, c, n).0),
        shadowed(propose_step(w, c, kind, x).0),
{
    let known = learned(w, x, c, crate::knowledge::KnowledgeKind::Note);
    let entry = crate::ids::KnowledgeEntryId((w.store.len() + 1) as u64);
    lemma_board_shadow(w, known, c, KindView::KnowledgeWritten { entry, text: x });
    if let Some(i) = crate::verbs::directive_at(w.directives, d, 0) {
        lemma_board_shadow(
            w,
            resolved(w, d, ResolutionView::Declined { by: c, reason: x }),
            c,
            KindView::DirectiveDeclined {
                directive: d,
                kind: w.directives[i].kind,
                reason: x,
                by: c,
            },
        );
    }
    assert(quiet(w, finish_step(w, x).0));
    lemma_quiet(w, finish_step(w, x).0);
    let target = crate::verbs::granted(w, n);
    let size = crate::verbs::obj1("target"@, crate::verbs::num(n as u64));
    let done = ResolutionView::Fulfilled { by: c };
    let tier = DirectiveTier::Mechanical;
    lemma_issued(w, c, tier, DirectiveKind::SetParallelism, size, done);
    let told = issued(w, c, tier, DirectiveKind::SetParallelism, size, done);
    lemma_quiet(w, told);
    lemma_board_shadow(
        told,
        retuned(told, target),
        c,
        KindView::ParallelismChanged {
            requested: n,
            effective: crate::context::low32(target as nat),
            via_directive: DirectiveId(w.next_directive),
        },
    );
    let args = match crate::json::parsed_json(x) {
        Some(v) => v,
        None => JsonView::Null,
    };
    lemma_issued(w, c, DirectiveTier::Judgment, kind, args, ResolutionView::Pending);
    lemma_quiet(w, issued(w, c, DirectiveTier::Judgment, kind, args, ResolutionView::Pending));
}

/// Whatever is called, by whomever, the agents remain those that the log describes. The one call
/// left out takes a task from an agent that sleeps: the log then tells that the agent is idle, while
/// it sleeps on.
pub proof fn calls_keep_agents_told(
    w: WorldView,
    tools: Seq<ToolView>,
    role: Role,
    caller: AgentId,
    name: Seq<char>,
    decoded: Result<VerbArgs, String>,
    replies: Replies,
)
    requires
        sound(w),
        shadowed(w),
        match decoded {
            Ok(VerbArgs::UnassignTask(a)) => !claimed_asleep(w, TaskId(a.task)),
            _ => true,
        },
    ensures
        shadowed(call_step(w, tools, role, caller, name, decoded, replies).0),
{
    let c = caller;
    let f = fault(replies.embedded);
    if let Ok(args) = decoded {
        match args {
            VerbArgs::ClaimTask(a) => lemma_claim_shadow(w, c, TaskId(a.task)),
            VerbArgs::CompleteTask(a) => lemma_complete_shadow(w, c, a.result@, f),
            VerbArgs::ReleaseTask(a) => lemma_release_shadow(w, c, text_view(a.reason)),
            VerbArgs::PostMessage(a) => {
                if let Ok(address) = crate::verbs::address_of(
                    w,
                    text_view(a.to),
                    text_view(a.team),
                    a.broadcast,
                ) {
                    lemma_posted_quiet(w, c, address, a.body@);
                    lemma_quiet(w, posted(w, c, address, a.body@));
                }
            },
            VerbArgs::SearchKnowledge(_) => {},
            VerbArgs::UnassignTask(a) => lemma_unassign_shadow(
                w,
                c,
                TaskId(a.task),
                text_view(a.reason),
                a.in_response_to,
            ),
            VerbArgs::CreateTask(a) => lemma_board_verbs_shadow(
                w,
                c,
                TaskId(0),
                a.title@,
                a.description@,
                text_view(a.team),
                Seq::empty(),
                None,
            ),
            VerbArgs::CancelTask(a) => lemma_board_verbs_shadow(
                w,
                c,
                TaskId(a.task),
                a.reason@,
                Seq::empty(),
                None,
                Seq::empty(),
                None,
            ),
            VerbArgs::FormTeam(a) => lemma_board_verbs_shadow(
                w,
                c,
                TaskId(0),
                a.team@,
                Seq::empty(),
                None,
                texts(a.members@),
                None,
            ),
            VerbArgs::DissolveTeam(a) => lemma_board_verbs_shadow(
                w,
                c,
                TaskId(0),
                a.team@,
                Seq::empty(),
                None,
                Seq::empty(),
                None,
            ),
            VerbArgs::SetTeamMembers(a) => lemma_board_verbs_shadow(
                w,
                c,
                TaskId(0),
                a.team@,
                Seq::empty(),
                None,
                texts(a.members@),
                a.in_response_to,
            ),
            VerbArgs::Respecialize(a) => lemma_respecialize_shadow(
                w,
                c,
                a.agent@,
                profile_of(a),
                a.in_response_to,
            ),
            VerbArgs::Sleep(_) => lemma_sleep_wake_shadow(w, c, Seq::empty()),
            VerbArgs::SleepAgent(a) => lemma_sleep_wake_shadow(w, c, a.agent@),
            VerbArgs::WakeAgent(a) => lemma_sleep_wake_shadow(w, c, a.agent@),
            VerbArgs::WriteKnowledge(a) => lemma_other_verbs_shadow(
                w,
                c,
                a.text@,
                f,
                DirectiveId(0),
                0,
                DirectiveKind::SleepAgent,
            ),
            VerbArgs::DeclineDirective(a) => lemma_other_verbs_shadow(
                w,
                c,
                a.reason@,
                f,
                DirectiveId(a.directive),
                0,
                DirectiveKind::SleepAgent,
            ),
            VerbArgs::FinishRun(a) => lemma_other_verbs_shadow(
                w,
                c,
                a.report@,
                f,
                DirectiveId(0),
                0,
                DirectiveKind::SleepAgent,
            ),
            VerbArgs::SetParallelism(a) => lemma_other_verbs_shadow(
                w,
                c,
                Seq::empty(),
                f,
                DirectiveId(0),
                a.target,
                DirectiveKind::SleepAgent,
            ),
            VerbArgs::Propose(kind, raw) => lemma_other_verbs_shadow(
                w,
                c,
                raw@,
                f,
                DirectiveId(0),
                0,
                kind,
            ),
        }
    }
}

/// Of a sound run the snapshot that clients fold from the log shows exactly the board that the run
/// has.
pub proof fn snapshots_show_the_board(w: WorldView)
    requires
        sound(w),
    ensures
        replayed(w.events) == w.board,
{
}

} // verus!
