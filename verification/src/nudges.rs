//! Who is due for a turn and why, told from the tasks, the mail, the log and the agents' books.
use crate::agent::{AgentId, Role};
use crate::board::{lemma_searches, BoardView, StateView, TaskView, TeamView};
use crate::dispatch::{args_step, Replies};
use crate::effects::{free, member, releases_reopen_the_callers_task};
use crate::event::{CapKind, EventSource, EventView, KindView, RunFinishReason};
use crate::ids::{EventId, TaskId};
use crate::message::mail_for;
use crate::schedule::{
    debt_settled, plan, plan_metas, plan_orchestrator, plan_team, scheduled, watched, Planned,
    TurnPlan,
};
use crate::serve::fold::applied;
use crate::table::{lemma_row_at, read_back, row};
use crate::tools::{ReleaseTaskArgs, VerbArgs};
use crate::world::{changes_work, meta_due, ControlView, SlotView, WorldView};
use vstd::prelude::*;

verus! {

// ---------------------------------------------------------------------------
// What is news.
// ---------------------------------------------------------------------------

/// A task of the number is open on the board.
pub open spec fn open_on(b: BoardView, id: TaskId) -> bool {
    exists|k: int|
        0 <= k < b.tasks.len() && (#[trigger] b.tasks[k]).id == id && b.tasks[k].state is Open
}

/// Whatever changes the board is news for idle agents, and so is an agent that woke or got another
/// specialty.
pub proof fn board_changes_are_news(b: BoardView, e: EventView)
    ensures
        applied(b, e) != b ==> changes_work(e.kind),
        e.kind is AgentWoke ==> changes_work(e.kind),
        e.kind is AgentRespecialized ==> changes_work(e.kind),
{
}

/// Whatever opens a task, as a new one or again, is news for idle agents.
pub proof fn opened_tasks_are_news(b: BoardView, e: EventView, id: TaskId)
    requires
        open_on(applied(b, e), id),
        !open_on(b, id),
    ensures
        changes_work(e.kind),
{
    if applied(b, e) == b {
        assert(open_on(b, id));
    }
    board_changes_are_news(b, e);
}

/// A board of one task.
spec fn lone(id: TaskId, team: Option<Seq<char>>, state: StateView) -> BoardView {
    BoardView {
        tasks: seq![
            TaskView {
                id,
                title: Seq::empty(),
                description: Seq::empty(),
                created_by: AgentId::Orchestrator,
                origin_event: EventId(0),
                team,
                state,
            },
        ],
        teams: Seq::empty(),
    }
}

/// A board of one team.
spec fn crewed(tag: Seq<char>, members: Seq<AgentId>) -> BoardView {
    BoardView { tasks: Seq::empty(), teams: seq![TeamView { id: tag, members, dissolved: false }] }
}

/// Events of the kind can change the board.
pub open spec fn moves_boards(kind: KindView) -> bool {
    exists|b: BoardView, e: EventView| e.kind == kind && #[trigger] applied(b, e) != b
}

/// Nothing else is news: a turn that ended, a message, a note, a nap or a directive does not stir an
/// idle agent.
pub proof fn only_work_is_news(kind: KindView)
    requires
        changes_work(kind),
    ensures
        kind is AgentWoke || kind is AgentRespecialized || moves_boards(kind),
{
    let agent = AgentId::Team(1);
    let e = EventView {
        id: EventId(0),
        at: crate::event::Timestamp { millis: 0, nanos: 0 },
        source: EventSource::Agent(agent),
        kind,
    };
    let held = StateView::Claimed { by: agent };
    match kind {
        KindView::TaskCreated { task, team, .. } => {
            let b = match team {
                Some(tag) => crewed(tag, Seq::empty()),
                None => BoardView::empty(),
            };
            lemma_searches(b, task, agent, Seq::empty(), 0);
            if let Some(tag) = team {
                assert(b.teams[0].id == tag);
                assert(b.team_of(tag) == Some(0int));
            }
            assert(applied(b, e).tasks.len() == 1);
            assert(applied(b, e) != b);
        },
        KindView::TaskClaimed { task, .. } => {
            let b = lone(task, None, StateView::Open);
            assert(b.tasks[0].id == task);
            assert(b.at(task) == Some(0int));
            assert(b.claim_of(agent) is None) by {
                lemma_searches(b, task, agent, Seq::empty(), 0);
            }
            assert(applied(b, e).tasks[0].state is Claimed);
            assert(applied(b, e) != b);
        },
        KindView::TaskReleased { task, .. } => {
            let b = lone(task, None, held);
            assert(b.claim_of(agent) == Some(0int));
            assert(applied(b, e).tasks[0].state is Open);
            assert(applied(b, e) != b);
        },
        KindView::TaskUnassigned { task, .. } => {
            let b = lone(task, None, held);
            assert(b.at(task) == Some(0int));
            assert(applied(b, e).tasks[0].state is Open);
            assert(applied(b, e) != b);
        },
        KindView::TaskCompleted { task, .. } => {
            let b = lone(task, None, held);
            assert(b.claim_of(agent) == Some(0int));
            assert(applied(b, e).tasks[0].state is Done);
            assert(applied(b, e) != b);
        },
        KindView::TaskCancelled { task, .. } => {
            let b = lone(task, None, StateView::Open);
            assert(b.at(task) == Some(0int));
            assert(applied(b, e).tasks[0].state is Cancelled);
            assert(applied(b, e) != b);
        },
        KindView::TeamFormed { team, .. } => {
            let b = BoardView::empty();
            assert(b.team_of(team) is None);
            assert(applied(b, e).teams.len() == 1);
            assert(applied(b, e) != b);
        },
        KindView::TeamMembersSet { team, members, .. } => {
            let b = crewed(team, members.push(agent));
            assert(b.team_of(team) == Some(0int));
            assert(applied(b, e).teams[0].members.len() == members.len());
            assert(b.teams[0].members.len() == members.len() + 1);
            assert(applied(b, e) != b);
        },
        KindView::TeamDissolved { team } => {
            let b = crewed(team, Seq::empty());
            assert(b.team_of(team) == Some(0int));
            assert(applied(b, e).teams[0].dissolved);
            assert(applied(b, e) != b);
        },
        _ => {},
    }
}

/// An event that is logged is news to everyone who has not looked since, and to nobody whose last look
/// came after it; what was news before stays news.
pub proof fn news_is_what_was_not_seen(
    w: WorldView,
    source: EventSource,
    kind: KindView,
    watermark: usize,
    agent: AgentId,
)
    ensures
        w.log(source, kind).work_news(watermark) <==> w.work_news(watermark) || (watermark
            <= w.events.len() && changes_work(kind)),
        w.log(source, kind).news_for(watermark, agent) <==> w.news_for(watermark, agent) || (
        watermark <= w.events.len() && source != EventSource::Agent(agent)),
        watermark >= w.events.len() ==> !w.work_news(watermark) && !w.news_for(watermark, agent),
{
    let v = w.log(source, kind);
    let n = w.events.len() as int;
    assert(v.events[n].kind == kind && v.events[n].source == source);
    if w.work_news(watermark) {
        let i = choose|i: int|
            watermark <= i < w.events.len() && changes_work((#[trigger] w.events[i]).kind);
        assert(v.events[i] == w.events[i]);
    }
    if v.work_news(watermark) {
        let i = choose|i: int|
            watermark <= i < v.events.len() && changes_work((#[trigger] v.events[i]).kind);
        if i < n {
            assert(v.events[i] == w.events[i]);
        }
    }
    if w.news_for(watermark, agent) {
        let i = choose|i: int|
            watermark <= i < w.events.len() && (#[trigger] w.events[i]).source.actor() != Some(
                agent,
            );
        assert(v.events[i] == w.events[i]);
    }
    if v.news_for(watermark, agent) {
        let i = choose|i: int|
            watermark <= i < v.events.len() && (#[trigger] v.events[i]).source.actor() != Some(
                agent,
            );
        if i < n {
            assert(v.events[i] == w.events[i]);
        }
    }
}

// ---------------------------------------------------------------------------
// Who is due.
// ---------------------------------------------------------------------------

/// There is an open task without a tag, or with that of a team that the agent is a member of.
pub open spec fn has_work(b: BoardView, agent: AgentId) -> bool {
    exists|k: int|
        0 <= k < b.tasks.len() && (#[trigger] b.tasks[k]).state is Open && (b.tasks[k].team matches
            Some(tag) ==> member(b, agent, tag))
}

proof fn lemma_has_work(w: WorldView, agent: AgentId)
    requires
        w.board.wf(),
    ensures
        w.eligible_open(agent) <==> has_work(w.board, agent),
{
    let b = w.board;
    assert forall|k: int| 0 <= k < b.tasks.len() implies (b.eligible(agent, #[trigger] b.tasks[k])
        <==> (b.tasks[k].team matches Some(tag) ==> member(b, agent, tag))) by {
        if let Some(tag) = b.tasks[k].team {
            lemma_searches(b, TaskId(0), agent, tag, 0);
            if member(b, agent, tag) {
                let t = choose|t: int|
                    0 <= t < b.teams.len() && (#[trigger] b.teams[t]).id == tag
                        && b.teams[t].members.contains(agent);
                let f = b.team_of(tag)->0;
                assert(b.teams[f].id == b.teams[t].id);
            }
            if b.eligible(agent, b.tasks[k]) {
                let f = b.team_of(tag)->0;
                assert(b.teams[f].id == tag && b.teams[f].members.contains(agent));
            }
        }
    }
    if w.eligible_open(agent) {
        let k = choose|k: int|
            0 <= k < b.tasks.len() && (#[trigger] b.tasks[k]).state is Open && b.eligible(
                agent,
                b.tasks[k],
            );
        assert(b.tasks[k].state is Open);
    }
    if has_work(b, agent) {
        let k = choose|k: int|
            0 <= k < b.tasks.len() && (#[trigger] b.tasks[k]).state is Open && (
            b.tasks[k].team matches Some(tag) ==> member(b, agent, tag));
        assert(b.tasks[k].state is Open);
    }
}

/// Of team agents: one with a turn under way is never due, and one that sleeps is not, mail or not; one
/// that works always is; one that is idle is due for mail, and otherwise only if there is a task that
/// it may claim and news about work that it has not seen.
pub proof fn team_agents_are_due_for_a_reason(w: WorldView, slot: SlotView)
    requires
        w.wf(),
    ensures
        slot.in_flight ==> !w.team_due(slot),
        slot.state is Asleep ==> !w.team_due(slot),
        !slot.in_flight && slot.state is Working ==> w.team_due(slot),
        !slot.in_flight && slot.state is Idle && mail_for(w.mail, slot.id).len() > 0 ==> w.team_due(
            slot,
        ),
        !slot.in_flight && slot.state is Idle && has_work(w.board, slot.id) && w.work_news(
            slot.watermark,
        ) ==> w.team_due(slot),
        slot.state is Idle && mail_for(w.mail, slot.id).len() == 0 && !has_work(w.board, slot.id)
            ==> !w.team_due(slot),
        slot.state is Idle && mail_for(w.mail, slot.id).len() == 0 && !w.work_news(slot.watermark)
            ==> !w.team_due(slot),
{
    lemma_has_work(w, slot.id);
}

/// The orchestrator is never due with a turn under way. Otherwise it is due before its first turn, when
/// the watchdog asks, for mail, and for any event of another's that it has not seen; and for nothing
/// else.
pub proof fn the_orchestrator_is_due_for_a_reason(w: WorldView)
    ensures
        w.orchestrator.in_flight ==> !w.orchestrator_due(),
        !w.orchestrator.in_flight && !w.first_tick_fired ==> w.orchestrator_due(),
        !w.orchestrator.in_flight && w.forced_tick ==> w.orchestrator_due(),
        !w.orchestrator.in_flight && mail_for(w.mail, AgentId::Orchestrator).len() > 0
            ==> w.orchestrator_due(),
        !w.orchestrator.in_flight && w.news_for(w.orchestrator.watermark, AgentId::Orchestrator)
            ==> w.orchestrator_due(),
        w.first_tick_fired && !w.forced_tick && mail_for(w.mail, AgentId::Orchestrator).len() == 0
            && !w.news_for(w.orchestrator.watermark, AgentId::Orchestrator)
            ==> !w.orchestrator_due(),
{
}

/// A meta-agent is due when something urgent happened or six events of others have passed, unless a turn
/// of it is under way.
pub proof fn meta_agents_are_due_for_a_reason(slot: ControlView)
    ensures
        slot.in_flight ==> !meta_due(slot),
        !slot.in_flight && slot.priority ==> meta_due(slot),
        !slot.in_flight && slot.unobserved >= 6 ==> meta_due(slot),
        !slot.priority && slot.unobserved <= 5 ==> !meta_due(slot),
{
}

/// After a release every idle and settled team agent that may claim the task and has not looked since is
/// due for a turn, whoever it is.
pub proof fn released_tasks_are_offered(
    w: WorldView,
    role: Role,
    caller: AgentId,
    a: ReleaseTaskArgs,
    replies: Replies,
    k: int,
    i: int,
)
    requires
        w.wf(),
        0 <= k < w.board.tasks.len(),
        w.board.tasks[k].state == (StateView::Claimed { by: caller }),
        0 <= i < w.team.len(),
        w.team[i].id != caller,
        w.team[i].state is Idle,
        !w.team[i].in_flight,
        w.team[i].watermark <= w.events.len(),
        w.board.tasks[k].team matches Some(tag) ==> member(w.board, w.team[i].id, tag),
    ensures
        ({
            let (v, r) = args_step(w, role, caller, VerbArgs::ReleaseTask(a), replies);
            r is Accepted && v.team_due(v.team[i])
        }),
{
    releases_reopen_the_callers_task(w, role, caller, a, replies, k);
    let v = args_step(w, role, caller, VerbArgs::ReleaseTask(a), replies).0;
    let task = v.board.tasks[k];
    assert(task.state is Open);
    assert(v.team[i] == w.team[i]);
    let e = v.events[w.events.len() as int];
    assert(applied(w.board, e).tasks[k].state is Open) by {
        lemma_searches(w.board, TaskId(0), caller, Seq::empty(), 0);
        let f = w.board.claim_of(caller)->0;
        assert(w.board.tasks[f].state == w.board.tasks[k].state);
    }
    board_changes_are_news(w.board, e);
    assert(changes_work(v.events[w.events.len() as int].kind));
    if let Some(tag) = task.team {
        lemma_searches(v.board, TaskId(0), v.team[i].id, tag, 0);
        let t = choose|t: int|
            0 <= t < w.board.teams.len() && (#[trigger] w.board.teams[t]).id == tag
                && w.board.teams[t].members.contains(w.team[i].id);
        let f = v.board.team_of(tag)->0;
        assert(v.board.teams[t].id == tag);
        assert(w.board.teams[f].id == w.board.teams[t].id);
    }
    assert(v.board.eligible(v.team[i].id, v.board.tasks[k]));
    assert(v.eligible_open(v.team[i].id));
}

// ---------------------------------------------------------------------------
// Who gets a turn.
// ---------------------------------------------------------------------------

/// The turn is planned.
pub open spec fn planned(plans: Seq<TurnPlan>, agent: AgentId, role: Role) -> bool {
    exists|p: int|
        0 <= p < plans.len() && (#[trigger] plans[p]) == (TurnPlan { agent, role })
}

proof fn lemma_metas_kept(start: Planned, n: int, agent: AgentId, role: Role)
    requires
        0 <= n <= start.0.metas.len(),
        planned(start.1, agent, role),
    ensures
        planned(plan_metas(start, n).1, agent, role),
    decreases n,
{
    if n > 0 {
        lemma_metas_kept(start, n - 1, agent, role);
        let before = plan_metas(start, n - 1).1;
        let after = plan_metas(start, n).1;
        let p = choose|p: int|
            0 <= p < before.len() && (#[trigger] before[p]) == (TurnPlan { agent, role });
        assert(after[p] == before[p]);
    }
}

proof fn lemma_team_kept(start: Planned, n: int, agent: AgentId, role: Role)
    requires
        0 <= n <= start.0.team.len(),
        planned(start.1, agent, role),
    ensures
        planned(plan_team(start, n).1, agent, role),
    decreases n,
{
    if n > 0 {
        lemma_team_kept(start, n - 1, agent, role);
        let before = plan_team(start, n - 1).1;
        let after = plan_team(start, n).1;
        let p = choose|p: int|
            0 <= p < before.len() && (#[trigger] before[p]) == (TurnPlan { agent, role });
        assert(after[p] == before[p]);
    }
}

proof fn lemma_metas_planned(start: Planned, n: int)
    requires
        0 <= n <= start.0.metas.len(),
    ensures
        ({
            let (w, plans) = plan_metas(start, n);
            &&& w.metas.len() == start.0.metas.len()
            &&& w.team == start.0.team
            &&& w.mail == start.0.mail
            &&& w.board == start.0.board
            &&& w.events == start.0.events
            &&& w.permits == start.0.permits
            &&& w.permit_debt == start.0.permit_debt
            &&& w.orchestrator == start.0.orchestrator
            &&& forall|i: int| n <= i < w.metas.len() ==> #[trigger] w.metas[i] == start.0.metas[i]
            &&& forall|i: int|
                0 <= i < n ==> #[trigger] w.metas[i] == if meta_due(start.0.metas[i]) {
                    ControlView {
                        in_flight: true,
                        unobserved: 0,
                        priority: false,
                        ..start.0.metas[i]
                    }
                } else {
                    start.0.metas[i]
                }
            &&& forall|i: int|
                0 <= i < n && meta_due(#[trigger] start.0.metas[i]) ==> planned(
                    plans,
                    start.0.metas[i].id,
                    Role::MetaAgent,
                )
        }),
    decreases n,
{
    if n > 0 {
        lemma_metas_planned(start, n - 1);
        let (v, before) = plan_metas(start, n - 1);
        let (w, plans) = plan_metas(start, n);
        assert(v.metas[n - 1] == start.0.metas[n - 1]);
        assert forall|i: int| 0 <= i < n && meta_due(#[trigger] start.0.metas[i]) implies planned(
            plans,
            start.0.metas[i].id,
            Role::MetaAgent,
        ) by {
            if i < n - 1 {
                let t = TurnPlan { agent: start.0.metas[i].id, role: Role::MetaAgent };
                let p = choose|p: int| 0 <= p < before.len() && (#[trigger] before[p]) == t;
                assert(plans[p] == t);
            } else {
                assert(plans[before.len() as int].agent == start.0.metas[i].id);
            }
        }
    }
}

/// How many of the first `n` team agents are due.
pub open spec fn dues(w: WorldView, n: int) -> nat
    decreases n,
{
    if n <= 0 {
        0
    } else {
        dues(w, n - 1) + if w.team_due(w.team[n - 1]) {
            1nat
        } else {
            0nat
        }
    }
}

proof fn lemma_team_planned(start: Planned, n: int)
    requires
        0 <= n <= start.0.team.len(),
    ensures
        ({
            let (w, plans) = plan_team(start, n);
            let given = if dues(start.0, n) <= start.0.permits {
                dues(start.0, n)
            } else {
                start.0.permits as nat
            };
            &&& w.team.len() == start.0.team.len()
            &&& w.mail == start.0.mail
            &&& w.board == start.0.board
            &&& w.events == start.0.events
            &&& w.metas == start.0.metas
            &&& w.orchestrator == start.0.orchestrator
            &&& w.permit_debt == start.0.permit_debt
            &&& w.permits == start.0.permits - given
            &&& plans.len() == start.1.len() + given
            &&& forall|i: int| n <= i < w.team.len() ==> #[trigger] w.team[i] == start.0.team[i]
            &&& forall|i: int|
                0 <= i < n ==> #[trigger] w.team[i] == if start.0.team_due(start.0.team[i]) && dues(
                    start.0,
                    i,
                ) < start.0.permits {
                    SlotView { in_flight: true, ..start.0.team[i] }
                } else {
                    start.0.team[i]
                }
            &&& forall|i: int|
                0 <= i < n && start.0.team_due(#[trigger] start.0.team[i]) && dues(start.0, i)
                    < start.0.permits ==> planned(plans, start.0.team[i].id, Role::TeamAgent)
        }),
    decreases n,
{
    if n > 0 {
        lemma_team_planned(start, n - 1);
        let (v, before) = plan_team(start, n - 1);
        let (w, plans) = plan_team(start, n);
        let slot = start.0.team[n - 1];
        assert(v.team[n - 1] == slot);
        assert(v.eligible_open(slot.id) == start.0.eligible_open(slot.id));
        assert(v.work_news(slot.watermark) == start.0.work_news(slot.watermark));
        assert forall|i: int|
            0 <= i < n && start.0.team_due(#[trigger] start.0.team[i]) && dues(start.0, i)
                < start.0.permits implies planned(plans, start.0.team[i].id, Role::TeamAgent) by {
            if i < n - 1 {
                let t = TurnPlan { agent: start.0.team[i].id, role: Role::TeamAgent };
                let p = choose|p: int| 0 <= p < before.len() && (#[trigger] before[p]) == t;
                assert(plans[p] == t);
            } else {
                assert(plans[before.len() as int].agent == start.0.team[i].id);
            }
        }
    }
}

proof fn lemma_same_dues(w: WorldView, v: WorldView, n: int)
    requires
        0 <= n <= w.team.len(),
        v.team == w.team,
        v.mail == w.mail,
        v.board == w.board,
        v.events == w.events,
    ensures
        dues(w, n) == dues(v, n),
        forall|i: int|
            0 <= i < n ==> w.team_due(#[trigger] w.team[i]) == v.team_due(v.team[i]),
    decreases n,
{
    if n > 0 {
        lemma_same_dues(w, v, n - 1);
        let slot = w.team[n - 1];
        assert(v.eligible_open(slot.id) == w.eligible_open(slot.id));
        assert(v.work_news(slot.watermark) == w.work_news(slot.watermark));
    }
}

/// Everyone who is due gets a turn, team agents as far as there are permits, by their numbers: the
/// orchestrator and the meta-agents need none. What was urgent and unseen for a meta-agent is then
/// seen. Nobody who is not due gets one.
pub proof fn who_is_due_gets_a_turn(w: WorldView, i: int)
    requires
        w.wf(),
        w.finishing is None,
    ensures
        ({
            let (v, plans) = plan(w);
            let free = debt_settled(w).permits;
            let n = w.team.len() as int;
            &&& w.orchestrator_due() ==> planned(plans, AgentId::Orchestrator, Role::Orchestrator)
                && v.orchestrator.in_flight && v.first_tick_fired && !v.forced_tick
            &&& !w.orchestrator_due() ==> v.orchestrator == w.orchestrator
            &&& 0 <= i < w.metas.len() && meta_due(w.metas[i]) ==> {
                &&& planned(plans, w.metas[i].id, Role::MetaAgent)
                &&& v.metas[i].in_flight && v.metas[i].unobserved == 0 && !v.metas[i].priority
            }
            &&& 0 <= i < w.metas.len() && !meta_due(w.metas[i]) ==> v.metas[i] == w.metas[i]
            &&& 0 <= i < n && w.team_due(w.team[i]) && dues(w, i) < free ==> {
                &&& planned(plans, w.team[i].id, Role::TeamAgent)
                &&& v.team[i] == SlotView { in_flight: true, ..w.team[i] }
            }
            &&& 0 <= i < n && !(w.team_due(w.team[i]) && dues(w, i) < free) ==> v.team[i]
                == w.team[i]
            &&& dues(w, n) <= free ==> v.permits == free - dues(w, n)
            &&& dues(w, n) > free ==> v.permits == 0
        }),
{
    let d = debt_settled(w);
    let s = plan_orchestrator(d);
    let m = w.metas.len() as int;
    let n = w.team.len() as int;
    assert(d.news_for(d.orchestrator.watermark, AgentId::Orchestrator) == w.news_for(
        w.orchestrator.watermark,
        AgentId::Orchestrator,
    ));
    lemma_metas_planned(s, m);
    let t = plan_metas(s, m);
    lemma_team_planned(t, n);
    lemma_same_dues(w, t.0, n);
    if w.orchestrator_due() {
        assert(s.1[0] == (TurnPlan { agent: AgentId::Orchestrator, role: Role::Orchestrator }));
        lemma_metas_kept(s, m, AgentId::Orchestrator, Role::Orchestrator);
        lemma_team_kept(t, n, AgentId::Orchestrator, Role::Orchestrator);
        lemma_flags(s, m);
        lemma_flags(t, n);
    }
    if 0 <= i < m {
        assert(s.0.metas[i] == w.metas[i]);
        assert(t.0.metas[i] == plan(w).0.metas[i]);
        if meta_due(w.metas[i]) {
            lemma_team_kept(t, n, w.metas[i].id, Role::MetaAgent);
        }
    }
    if 0 <= i < n {
        assert(t.0.team[i] == w.team[i]);
        lemma_same_dues(w, t.0, i);
    }
}

proof fn lemma_flags(start: Planned, n: int)
    ensures
        plan_metas(start, n).0.first_tick_fired == start.0.first_tick_fired,
        plan_metas(start, n).0.forced_tick == start.0.forced_tick,
        plan_team(start, n).0.first_tick_fired == start.0.first_tick_fired,
        plan_team(start, n).0.forced_tick == start.0.forced_tick,
    decreases n,
{
    if n > 0 {
        lemma_flags(start, n - 1);
    }
}

/// Permits still to be withdrawn are withdrawn from the free ones, as many as there are.
pub proof fn debts_are_settled_first(w: WorldView)
    ensures
        debt_settled(w).permits - debt_settled(w).permit_debt == w.permits - w.permit_debt,
        debt_settled(w).permits == 0 || debt_settled(w).permit_debt == 0,
        debt_settled(w).permits <= w.permits,
        w.permit_debt == 0 ==> debt_settled(w) == w,
{
    assert(w.permit_debt == 0 ==> debt_settled(w) =~= w);
}

/// The scheduler stops exactly when the run is finishing and no turn is under way; while turns of a
/// finishing run are under way it plans none; and a log that cannot be written ends the run.
pub proof fn schedules_stop_with_the_run(w: WorldView, error: Seq<char>)
    ensures
        scheduled(w, None).1 is None <==> w.finishing is Some && w.turns_in_flight == 0,
        w.finishing is Some && w.turns_in_flight > 0 ==> scheduled(w, None) == (
            w,
            Some(Seq::<TurnPlan>::empty()),
        ),
        scheduled(w, Some(error)).0.finishing is Some,
        w.finishing is None ==> scheduled(w, Some(error)).0.finishing == Some(
            (RunFinishReason::HarnessError, 1u8),
        ) && scheduled(w, Some(error)).0.harness_error == Some(
            "events.jsonl write failed: "@ + error,
        ),
{
}

// ---------------------------------------------------------------------------
// Meta-agents, stalls and ends.
// ---------------------------------------------------------------------------

/// Every event counts for each meta-agent that did not cause it, and for no other. A park, a declined
/// directive and a nudge make them look at once; so does a release of a task that was released twice
/// before, and no earlier one.
pub proof fn meta_agents_watch_the_log(
    w: WorldView,
    source: EventSource,
    kind: KindView,
    i: int,
    task: TaskId,
)
    requires
        0 <= i < w.metas.len(),
        w.metas[i].unobserved < u64::MAX,
        forall|n: int|
            0 <= n < w.release_counts.len() ==> (#[trigger] w.release_counts[n]).1 < u32::MAX,
    ensures
        ({
            let v = w.log(source, kind);
            let mine = source == EventSource::Agent(w.metas[i].id);
            let before: int = match row(w.release_counts, task) {
                Some(n) => n as int,
                None => 0,
            };
            &&& v.metas.len() == w.metas.len()
            &&& mine ==> v.metas[i] == w.metas[i]
            &&& !mine ==> v.metas[i].unobserved == w.metas[i].unobserved + 1
            &&& w.metas[i].priority ==> v.metas[i].priority
            &&& !mine && (kind is AgentParked || kind is DirectiveDeclined || kind is LivenessNudge)
                ==> v.metas[i].priority
            &&& !(kind is AgentParked || kind is DirectiveDeclined || kind is LivenessNudge || kind
                is TaskReleased) ==> v.metas[i].priority == w.metas[i].priority
            &&& (kind matches KindView::TaskReleased { task: t, .. } && t == task) ==> {
                &&& row(v.release_counts, task) == Some((before + 1) as u32)
                &&& !mine && before >= 2 ==> v.metas[i].priority
                &&& before < 2 ==> v.metas[i].priority == w.metas[i].priority
            }
            &&& !(kind matches KindView::TaskReleased { task: t, .. } && t == task) ==> row(
                v.release_counts,
                task,
            ) == row(w.release_counts, task)
            &&& v.metas[i].id == w.metas[i].id && v.metas[i].in_flight == w.metas[i].in_flight
            &&& v.metas[i].turn_index == w.metas[i].turn_index
            &&& v.metas[i].watermark == w.metas[i].watermark
            &&& v.metas[i].channel == w.metas[i].channel
        }),
{
    if let KindView::TaskReleased { task: t, .. } = kind {
        let n: u32 = match row(w.release_counts, t) {
            Some(n) => (n + 1) as u32,
            None => 1,
        };
        lemma_row_at(w.release_counts, t, 0);
        read_back(w.release_counts, t, n, task);
    }
}

/// An event is logged under the next number, with the time, and behind all others; logging it changes
/// nobody's tasks, mail or knowledge.
pub proof fn events_are_logged_in_order(w: WorldView, source: EventSource, kind: KindView)
    requires
        w.next_event < u64::MAX,
    ensures
        ({
            let v = w.log(source, kind);
            &&& v.events.len() == w.events.len() + 1
            &&& v.events.last().id.0 == w.next_event
            &&& v.events.last().at == w.now
            &&& v.events.last().source == source
            &&& v.events.last().kind == kind
            &&& v.events.drop_last() == w.events
            &&& v.next_event == w.next_event + 1
            &&& v.board == w.board && v.messages == w.messages && v.mail == w.mail
            &&& v.store == w.store && v.directives == w.directives && v.team == w.team
            &&& v.orchestrator == w.orchestrator && v.finishing == w.finishing
        }),
{
    assert(w.log(source, kind).events.drop_last() =~= w.events);
}

/// Of the tasks, those that are open and those whose claimant sleeps are counted, each once.
pub proof fn stalled_tasks_are_counted(w: WorldView, n: int)
    requires
        w.wf(),
        0 <= n < w.board.tasks.len(),
    ensures
        w.open_count(0) == 0,
        w.stuck_count(0) == 0,
        w.open_count(n + 1) - w.open_count(n) == (if w.board.tasks[n].state is Open {
            1int
        } else {
            0
        }),
        w.stuck_count(n + 1) - w.stuck_count(n) == (if exists|i: int|
            0 <= i < w.team.len() && w.board.tasks[n].state == (StateView::Claimed {
                by: (#[trigger] w.team[i]).id,
            }) && w.team[i].state is Asleep {
            1int
        } else {
            0
        }),
{
    if let StateView::Claimed { by } = w.board.tasks[n].state {
        crate::world::lemma_slot_at(w.team, by, 0);
        if exists|i: int|
            0 <= i < w.team.len() && w.board.tasks[n].state == (StateView::Claimed {
                by: (#[trigger] w.team[i]).id,
            }) && w.team[i].state is Asleep {
            let i = choose|i: int|
                0 <= i < w.team.len() && w.board.tasks[n].state == (StateView::Claimed {
                    by: (#[trigger] w.team[i]).id,
                }) && w.team[i].state is Asleep;
            let f = crate::world::slot_at(w.team, by, 0)->0;
            assert(w.team[f].id == w.team[i].id);
            assert(f == i);
        } else if w.stuck(w.board.tasks[n].state) {
            let f = crate::world::slot_at(w.team, by, 0)->0;
            assert(w.team[f].id == by);
        }
    }
}

/// The watchdog forces a turn exactly when the run goes on, is quiet, has open tasks or tasks whose
/// claimant sleeps, and the scheduler has nobody to give a turn. It then logs the two counts, as the
/// harness, and asks for one turn of the orchestrator; otherwise it changes nothing.
pub proof fn stalls_are_nudged(w: WorldView)
    ensures
        ({
            let (v, step) = watched(w);
            let n = w.board.tasks.len() as int;
            let quiet = w.turns_in_flight == 0 && !w.orchestrator.in_flight && !w.forced_tick
                && mail_for(w.mail, AgentId::Orchestrator).len() == 0 && forall|i: int|
                0 <= i < w.team.len() ==> !((#[trigger] w.team[i]).state is Working);
            let left = w.open_count(n) + w.stuck_count(n);
            &&& step is Stop <==> w.finishing is Some
            &&& w.finishing is None ==> (step is Quiet <==> !(quiet && left > 0))
            &&& step is Remind ==> w.busy()
            &&& step is Force <==> w.finishing is None && quiet && left > 0 && !w.busy()
            &&& !(step is Force) ==> v == w
            &&& step is Force ==> {
                &&& v.forced_tick
                &&& v.events.len() == w.events.len() + 1
                &&& v.events.last().source is System
                &&& v.events.last().kind matches KindView::LivenessNudge {
                    board_open,
                    claimed_by_asleep,
                } && {
                    &&& w.open_count(n) <= u32::MAX ==> board_open == w.open_count(n)
                    &&& w.stuck_count(n) <= u32::MAX ==> claimed_by_asleep == w.stuck_count(n)
                }
                &&& v.board == w.board && v.team == w.team && v.mail == w.mail
            }
        }),
{
}

/// A limit ends a run that goes on with exit code two: the log says which limit and what was seen, and
/// then that the run is over. A fault ends it with exit code one and keeps what went wrong. A run that
/// is finishing finishes as it was.
pub proof fn limits_and_faults_end_runs(
    w: WorldView,
    cap: CapKind,
    limit: u64,
    seen: u64,
    message: Seq<char>,
)
    ensures
        w.finishing is Some ==> w.capped(cap, limit, seen) == w && w.failed(message) == w,
        w.finishing is None ==> {
            let v = w.capped(cap, limit, seen);
            let u = w.failed(message);
            let n = w.events.len() as int;
            &&& v.finishing == Some((RunFinishReason::CapHit(cap), 2u8))
            &&& v.events.len() == n + 2
            &&& v.events[n].kind == (KindView::CapHit { cap, limit, observed: seen })
            &&& v.events[n].source is System
            &&& v.events[n + 1].kind == (KindView::RunFinished {
                reason: RunFinishReason::CapHit(cap),
                exit_code: 2,
            })
            &&& v.harness_error == w.harness_error
            &&& u.finishing == Some((RunFinishReason::HarnessError, 1u8))
            &&& u.harness_error == Some(message)
            &&& u.events.len() == n + 1
            &&& u.events[n].kind == (KindView::RunFinished {
                reason: RunFinishReason::HarnessError,
                exit_code: 1,
            })
            &&& v.board == w.board && u.board == w.board && v.team == w.team && u.team == w.team
        },
{
}

} // verus!
