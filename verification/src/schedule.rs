//! Who gets a turn next, when the run has stalled, and what a change of the permits adds up to.
use crate::agent::{AgentId, Role};
use crate::event::{text_view, EventKind, EventSource, KindView};
use crate::context::low32;
use crate::world::{
    meta_due, metas_in_order, number_of, team_in_order, ControlView, SlotView, World, WorldView,
    META_CADENCE_THRESHOLD,
};
use vstd::prelude::*;

verus! {

/// A turn to be run.
#[derive(Clone, Copy, PartialEq, Eq, Structural, Debug)]
pub struct TurnPlan {
    /// Whose.
    pub agent: AgentId,
    /// The agent's role.
    pub role: Role,
}

/// Worlds and the turns planned in them.
pub type Planned = (WorldView, Seq<TurnPlan>);

/// The world after permits that were still to be withdrawn have been, as far as they are free.
pub open spec fn debt_settled(w: WorldView) -> WorldView {
    let taken = if w.permit_debt <= w.permits {
        w.permit_debt
    } else {
        w.permits
    };
    WorldView {
        permits: (w.permits - taken) as usize,
        permit_debt: (w.permit_debt - taken) as usize,
        ..w
    }
}

/// The orchestrator's turn, if it is due.
pub open spec fn plan_orchestrator(w: WorldView) -> Planned {
    if w.orchestrator_due() {
        (
            WorldView {
                first_tick_fired: true,
                forced_tick: false,
                orchestrator: ControlView { in_flight: true, ..w.orchestrator },
                turns_in_flight: (w.turns_in_flight + 1) as usize,
                ..w
            },
            seq![TurnPlan { agent: AgentId::Orchestrator, role: Role::Orchestrator }],
        )
    } else {
        (w, Seq::empty())
    }
}

/// The turns of those among the first `n` meta-agents that are due, behind earlier plans.
pub open spec fn plan_metas(start: Planned, n: int) -> Planned
    decreases n,
{
    if n <= 0 {
        start
    } else {
        let (w, plans) = plan_metas(start, n - 1);
        let slot = w.metas[n - 1];
        if meta_due(slot) {
            (
                WorldView {
                    metas: w.metas.update(
                        n - 1,
                        ControlView { priority: false, unobserved: 0, in_flight: true, ..slot },
                    ),
                    turns_in_flight: (w.turns_in_flight + 1) as usize,
                    ..w
                },
                plans.push(TurnPlan { agent: slot.id, role: Role::MetaAgent }),
            )
        } else {
            (w, plans)
        }
    }
}

/// The turns of those among the first `n` team agents that are due and get a permit, behind earlier
/// plans.
pub open spec fn plan_team(start: Planned, n: int) -> Planned
    decreases n,
{
    if n <= 0 {
        start
    } else {
        let (w, plans) = plan_team(start, n - 1);
        let slot = w.team[n - 1];
        if w.team_due(slot) && w.permits > 0 {
            (
                WorldView {
                    team: w.team.update(n - 1, SlotView { in_flight: true, ..slot }),
                    permits: (w.permits - 1) as usize,
                    turns_in_flight: (w.turns_in_flight + 1) as usize,
                    ..w
                },
                plans.push(TurnPlan { agent: slot.id, role: Role::TeamAgent }),
            )
        } else {
            (w, plans)
        }
    }
}

/// All turns that are due: the orchestrator's, then those of meta-agents, then those of team agents,
/// each in the order of their handles. A run that is finishing plans none.
pub open spec fn plan(w: WorldView) -> Planned {
    if w.finishing is Some {
        (w, Seq::empty())
    } else {
        plan_team(
            plan_metas(plan_orchestrator(debt_settled(w)), w.metas.len() as int),
            w.team.len() as int,
        )
    }
}

/// The number of turns under way can grow by all agents.
pub open spec fn flight_room(w: WorldView) -> bool {
    w.turns_in_flight + 1 + w.metas.len() + w.team.len() <= usize::MAX
}

/// Plans the turns of the meta-agents that are due.
fn dispatch_metas(world: &mut World, plans: &mut Vec<TurnPlan>)
    requires
        old(world).valid(),
        old(world)@.turns_in_flight + old(world)@.metas.len() <= usize::MAX,
    ensures
        final(world).valid(),
        (final(world)@, final(plans)@) == plan_metas(
            (old(world)@, old(plans)@),
            old(world)@.metas.len() as int,
        ),
        final(world)@.turns_in_flight <= old(world)@.turns_in_flight + old(world)@.metas.len(),
        final(world)@.team == old(world)@.team,
{
    let ghost start = (world@, plans@);
    let len: usize = world.metas.len();
    let mut i: usize = 0;
    while i < len
        invariant
            0 <= i <= len,
            len == world.metas.len(),
            len == old(world)@.metas.len(),
            start == (old(world)@, old(plans)@),
            world.valid(),
            (world@, plans@) == plan_metas(start, i as int),
            world@.turns_in_flight <= old(world)@.turns_in_flight + i,
            old(world)@.turns_in_flight + len <= usize::MAX,
            world@.team == old(world)@.team,
        decreases len - i,
    {
        let ghost before = world@;
        if !world.metas[i].in_flight && (world.metas[i].priority || world.metas[i].unobserved
            >= META_CADENCE_THRESHOLD) {
            world.metas[i].priority = false;
            world.metas[i].unobserved = 0;
            world.metas[i].in_flight = true;
            world.turns_in_flight = world.turns_in_flight + 1;
            let agent = world.metas[i].id;
            plans.push(TurnPlan { agent, role: Role::MetaAgent });
            assert(world@ =~= (WorldView {
                metas: before.metas.update(
                    i as int,
                    ControlView {
                        priority: false,
                        unobserved: 0,
                        in_flight: true,
                        ..before.metas[i as int]
                    },
                ),
                turns_in_flight: (before.turns_in_flight + 1) as usize,
                ..before
            }));
        }
        i = i + 1;
    }
}

/// Plans the turns of the team agents that are due and get a permit.
fn dispatch_team(world: &mut World, plans: &mut Vec<TurnPlan>)
    requires
        old(world).valid(),
        old(world)@.turns_in_flight + old(world)@.team.len() <= usize::MAX,
    ensures
        final(world).valid(),
        (final(world)@, final(plans)@) == plan_team(
            (old(world)@, old(plans)@),
            old(world)@.team.len() as int,
        ),
{
    let ghost start = (world@, plans@);
    let len: usize = world.team.len();
    let mut i: usize = 0;
    while i < len
        invariant
            0 <= i <= len,
            len == world.team.len(),
            len == old(world)@.team.len(),
            start == (old(world)@, old(plans)@),
            world.valid(),
            (world@, plans@) == plan_team(start, i as int),
            world@.turns_in_flight <= old(world)@.turns_in_flight + i,
            old(world)@.turns_in_flight + len <= usize::MAX,
        decreases len - i,
    {
        let ghost before = world@;
        if world.wants_turn(i) && world.permits > 0 {
            world.team[i].in_flight = true;
            world.permits = world.permits - 1;
            world.turns_in_flight = world.turns_in_flight + 1;
            let agent = world.team[i].id;
            plans.push(TurnPlan { agent, role: Role::TeamAgent });
            assert(world@ =~= (WorldView {
                team: before.team.update(
                    i as int,
                    SlotView { in_flight: true, ..before.team[i as int] },
                ),
                permits: (before.permits - 1) as usize,
                turns_in_flight: (before.turns_in_flight + 1) as usize,
                ..before
            }));
        }
        i = i + 1;
    }
}

/// Plans every turn that is due.
pub fn plan_dispatches(world: &mut World) -> (plans: Vec<TurnPlan>)
    requires
        old(world).valid(),
        flight_room(old(world)@),
    ensures
        final(world).valid(),
        (final(world)@, plans@) == plan(old(world)@),
{
    let mut plans: Vec<TurnPlan> = Vec::new();
    if world.finishing.is_some() {
        return plans;
    }
    let taken: usize = if world.permit_debt <= world.permits {
        world.permit_debt
    } else {
        world.permits
    };
    world.permits = world.permits - taken;
    world.permit_debt = world.permit_debt - taken;
    assert(world@ =~= debt_settled(old(world)@));
    if world.wants_orchestrator() {
        world.first_tick_fired = true;
        world.forced_tick = false;
        world.orchestrator.in_flight = true;
        world.turns_in_flight = world.turns_in_flight + 1;
        plans.push(TurnPlan { agent: AgentId::Orchestrator, role: Role::Orchestrator });
        assert(plans@ =~= seq![TurnPlan {
            agent: AgentId::Orchestrator,
            role: Role::Orchestrator,
        }]);
        assert(world@ =~= plan_orchestrator(debt_settled(old(world)@)).0);
    }
    assert((world@, plans@) == plan_orchestrator(debt_settled(old(world)@)));
    dispatch_metas(world, &mut plans);
    dispatch_team(world, &mut plans);
    plans
}

/// What the scheduler does next.
#[derive(Debug)]
pub enum ScheduleStep {
    /// Nothing: the run is over and no turn is under way.
    Stop,
    /// Run the turns, then look again; without any, wait first.
    Run(Vec<TurnPlan>),
}

/// What the scheduler does next. A failure to write the log ends the run.
pub open spec fn scheduled(w: WorldView, io_error: Option<Seq<char>>) -> (
    WorldView,
    Option<Seq<TurnPlan>>,
) {
    let checked = match io_error {
        Some(e) => w.failed("events.jsonl write failed: "@ + e),
        None => w,
    };
    if checked.finishing is Some && checked.turns_in_flight == 0 {
        (checked, None)
    } else {
        (plan(checked).0, Some(plan(checked).1))
    }
}

/// Decides what the scheduler does next.
pub fn schedule_step(world: &mut World, io_error: Option<String>) -> (r: ScheduleStep)
    requires
        old(world).valid(),
        old(world)@.log_room(1, 0, 0),
        flight_room(old(world)@),
    ensures
        final(world).valid(),
        final(world)@ == scheduled(old(world)@, text_view(io_error)).0,
        match r {
            ScheduleStep::Stop => scheduled(old(world)@, text_view(io_error)).1 is None,
            ScheduleStep::Run(plans) => scheduled(old(world)@, text_view(io_error)).1 == Some(
                plans@,
            ),
        },
{
    if let Some(e) = io_error {
        let mut message = "events.jsonl write failed: ".to_owned();
        message.push_str(e.as_str());
        world.trigger_harness_error(message);
    }
    if world.finishing.is_some() {
        if world.turns_in_flight == 0 {
            return ScheduleStep::Stop;
        }
        let none: Vec<TurnPlan> = Vec::new();
        return ScheduleStep::Run(none);
    }
    ScheduleStep::Run(plan_dispatches(world))
}

/// What the watchdog does.
#[derive(Clone, Copy, PartialEq, Eq, Structural, Debug)]
pub enum WatchStep {
    /// Stop watching: the run is finishing.
    Stop,
    /// Nothing: the run is not stalled.
    Quiet,
    /// Wake the scheduler, which has something to do.
    Remind,
    /// Wake the scheduler for a turn of the orchestrator that is now forced.
    Force,
}

/// What the watchdog does: a run that is stalled and has nothing to dispatch gets a nudge and one
/// forced turn of the orchestrator.
pub open spec fn watched(w: WorldView) -> (WorldView, WatchStep) {
    if w.finishing is Some {
        (w, WatchStep::Stop)
    } else if !w.stalled() {
        (w, WatchStep::Quiet)
    } else if w.busy() {
        (w, WatchStep::Remind)
    } else {
        let tasks = w.board.tasks.len() as int;
        (
            WorldView {
                forced_tick: true,
                ..w.log(
                    EventSource::System,
                    KindView::LivenessNudge {
                        board_open: low32(w.open_count(tasks)),
                        claimed_by_asleep: low32(w.stuck_count(tasks)),
                    },
                )
            },
            WatchStep::Force,
        )
    }
}

/// One look of the watchdog.
pub fn watchdog_step(world: &mut World) -> (r: WatchStep)
    requires
        old(world).valid(),
        old(world)@.log_room(1, 0, 0),
    ensures
        final(world).valid(),
        (final(world)@, r) == watched(old(world)@),
{
    if world.finishing.is_some() {
        return WatchStep::Stop;
    }
    match world.liveness_predicate() {
        None => WatchStep::Quiet,
        Some((board_open, claimed_by_asleep)) => {
            if world.would_dispatch() {
                return WatchStep::Remind;
            }
            world.append_event(
                EventSource::System,
                EventKind::LivenessNudge { board_open, claimed_by_asleep },
            );
            let ghost told = world@;
            world.forced_tick = true;
            assert(world@ =~= (WorldView { forced_tick: true, ..told }));
            WatchStep::Force
        },
    }
}

/// Gives a permit back when a team agent's turn is over.
pub fn return_permit(world: &mut World)
    requires
        old(world).valid(),
        old(world)@.permits < usize::MAX,
    ensures
        final(world).valid(),
        final(world)@ == (WorldView {
            permits: (old(world)@.permits + 1) as usize,
            ..old(world)@
        }),
{
    world.permits = world.permits + 1;
    assert(world@ =~= (WorldView {
        permits: (old(world)@.permits + 1) as usize,
        ..old(world)@
    }));
}

// ---------------------------------------------------------------------------
// Laws.
// ---------------------------------------------------------------------------

/// How many team agents have a turn under way.
pub open spec fn flying(team: Seq<SlotView>) -> nat
    decreases team.len(),
{
    if team.len() == 0 {
        0
    } else {
        flying(team.drop_last()) + if team.last().in_flight {
            1nat
        } else {
            0nat
        }
    }
}

/// Permits that are free and permits in use are together as many as may work at once and as are
/// still to be withdrawn.
pub open spec fn balanced(w: WorldView) -> bool {
    w.permits + flying(w.team) == w.effective_parallelism + w.permit_debt
}

proof fn lemma_flying_update(team: Seq<SlotView>, i: int, slot: SlotView)
    requires
        0 <= i < team.len(),
    ensures
        flying(team.update(i, slot)) + (if team[i].in_flight {
            1nat
        } else {
            0nat
        }) == flying(team) + (if slot.in_flight {
            1nat
        } else {
            0nat
        }),
    decreases team.len(),
{
    let n = team.update(i, slot);
    if i == team.len() - 1 {
        assert(n.drop_last() =~= team.drop_last());
    } else {
        lemma_flying_update(team.drop_last(), i, slot);
        assert(n.drop_last() =~= team.drop_last().update(i, slot));
    }
}

/// What planning the meta-agents leaves alone.
proof fn lemma_plan_metas(start: Planned, n: int)
    requires
        0 <= n <= start.0.metas.len(),
    ensures
        ({
            let (w, plans) = plan_metas(start, n);
            &&& w.team == start.0.team
            &&& w.permits == start.0.permits
            &&& w.permit_debt == start.0.permit_debt
            &&& w.effective_parallelism == start.0.effective_parallelism
            &&& w.metas.len() == start.0.metas.len()
            &&& w.mail == start.0.mail
            &&& w.board == start.0.board
            &&& w.events == start.0.events
            &&& forall|i: int| n <= i < w.metas.len() ==> #[trigger] w.metas[i] == start.0.metas[i]
            &&& plans.len() >= start.1.len()
            &&& plans.len() == start.1.len() <==> forall|i: int|
                0 <= i < n ==> !meta_due(#[trigger] start.0.metas[i])
        }),
    decreases n,
{
    if n > 0 {
        lemma_plan_metas(start, n - 1);
        let (w, plans) = plan_metas(start, n - 1);
        assert(w.metas[n - 1] == start.0.metas[n - 1]);
        if plan_metas(start, n).1.len() == start.1.len() {
            assert forall|i: int| 0 <= i < n implies !meta_due(#[trigger] start.0.metas[i]) by {
                if i < n - 1 {
                    assert(plans.len() == start.1.len());
                }
            }
        } else {
            if forall|i: int| 0 <= i < n ==> !meta_due(#[trigger] start.0.metas[i]) {
                assert(!meta_due(start.0.metas[n - 1]));
                assert(forall|i: int| 0 <= i < n - 1 ==> !meta_due(#[trigger] start.0.metas[i]));
            }
        }
    }
}

/// What planning the team agents keeps.
proof fn lemma_plan_team(start: Planned, n: int)
    requires
        0 <= n <= start.0.team.len(),
    ensures
        ({
            let (w, plans) = plan_team(start, n);
            &&& w.team.len() == start.0.team.len()
            &&& w.mail == start.0.mail
            &&& w.board == start.0.board
            &&& w.events == start.0.events
            &&& w.effective_parallelism == start.0.effective_parallelism
            &&& w.permit_debt == start.0.permit_debt
            &&& w.permits + (plans.len() - start.1.len()) == start.0.permits
            &&& flying(w.team) == flying(start.0.team) + (plans.len() - start.1.len())
            &&& plans.len() >= start.1.len()
            &&& forall|i: int| n <= i < w.team.len() ==> #[trigger] w.team[i] == start.0.team[i]
            &&& plans.len() > start.1.len() ==> exists|i: int|
                0 <= i < n && start.0.team_due(#[trigger] start.0.team[i])
            &&& start.0.permits > 0 && (exists|i: int|
                0 <= i < n && start.0.team_due(#[trigger] start.0.team[i])) ==> plans.len()
                > start.1.len()
        }),
    decreases n,
{
    if n > 0 {
        lemma_plan_team(start, n - 1);
        let (w, plans) = plan_team(start, n - 1);
        let slot = w.team[n - 1];
        assert(slot == start.0.team[n - 1]);
        assert(w.eligible_open(slot.id) == start.0.eligible_open(slot.id));
        assert(w.work_news(slot.watermark) == start.0.work_news(slot.watermark));
        assert(w.team_due(slot) == start.0.team_due(slot));
        if w.team_due(slot) && w.permits > 0 {
            lemma_flying_update(w.team, n - 1, SlotView { in_flight: true, ..slot });
            assert(start.0.team_due(start.0.team[n - 1]));
        } else if plans.len() > start.1.len() {
            let i = choose|i: int| 0 <= i < n - 1 && start.0.team_due(#[trigger] start.0.team[i]);
            assert(0 <= i < n && start.0.team_due(start.0.team[i]));
        }
        if start.0.permits > 0 && exists|i: int|
            0 <= i < n && start.0.team_due(#[trigger] start.0.team[i]) {
            let i = choose|i: int| 0 <= i < n && start.0.team_due(#[trigger] start.0.team[i]);
            if i < n - 1 {
                assert(0 <= i < n - 1 && start.0.team_due(start.0.team[i]));
            } else {
                if plans.len() == start.1.len() {
                    assert(w.permits == start.0.permits);
                }
            }
        }
    }
}

/// Planning keeps the permits in balance.
pub proof fn planning_keeps_balance(w: WorldView)
    requires
        balanced(w),
    ensures
        balanced(plan(w).0),
{
    if w.finishing is None {
        let s = plan_orchestrator(debt_settled(w));
        lemma_plan_metas(s, w.metas.len() as int);
        lemma_plan_team(plan_metas(s, w.metas.len() as int), w.team.len() as int);
    }
}

/// No more team agents get a turn than there are permits.
pub proof fn permits_bound_team_turns(w: WorldView)
    requires
        w.finishing is None,
    ensures
        ({
            let before = plan_metas(
                plan_orchestrator(debt_settled(w)),
                w.metas.len() as int,
            ).1.len();
            plan(w).1.len() - before <= debt_settled(w).permits
        }),
{
    let s = plan_orchestrator(debt_settled(w));
    lemma_plan_metas(s, w.metas.len() as int);
    lemma_plan_team(plan_metas(s, w.metas.len() as int), w.team.len() as int);
}

/// A change of parallelism keeps the permits in balance.
pub proof fn retuning_keeps_balance(w: WorldView, target: usize)
    requires
        balanced(w),
        w.permits + target <= usize::MAX,
        w.permit_debt + w.effective_parallelism <= usize::MAX,
    ensures
        balanced(crate::verbs::retuned(w, target)),
{
}

/// When a team agent's turn is over and its permit is back, the permits are in balance again.
pub proof fn landing_keeps_balance(w: WorldView, agent: AgentId)
    requires
        balanced(w),
        crate::world::slot_at(w.team, agent, 0) is Some,
        w.team[crate::world::slot_at(w.team, agent, 0)->0].in_flight,
        w.permits < usize::MAX,
    ensures
        ({
            let over = crate::turn::turn_over(w, agent, Role::TeamAgent);
            balanced(WorldView { permits: (over.permits + 1) as usize, ..over })
        }),
{
    crate::world::lemma_slot_at(w.team, agent, 0);
    let i = crate::world::slot_at(w.team, agent, 0)->0;
    lemma_flying_update(w.team, i, SlotView { in_flight: false, ..w.team[i] });
}

/// The scheduler plans a turn only if one is due, and plans one if one is due and permits are not
/// lacking.
pub proof fn plans_mirror_dues(w: WorldView)
    requires
        w.finishing is None,
    ensures
        plan(w).1.len() > 0 ==> w.busy(),
        w.busy() && debt_settled(w).permits > 0 ==> plan(w).1.len() > 0,
{
    let d = debt_settled(w);
    let s = plan_orchestrator(d);
    let len = w.metas.len() as int;
    assert(d.news_for(d.orchestrator.watermark, AgentId::Orchestrator) == w.news_for(
        w.orchestrator.watermark,
        AgentId::Orchestrator,
    ));
    assert(d.orchestrator_due() == w.orchestrator_due());
    lemma_plan_metas(s, len);
    let m = plan_metas(s, len);
    lemma_plan_team(m, w.team.len() as int);
    assert forall|i: int| 0 <= i < w.team.len() implies m.0.team_due(#[trigger] m.0.team[i])
        == w.team_due(w.team[i]) by {
        let slot = w.team[i];
        assert(m.0.team[i] == slot);
        assert(m.0.eligible_open(slot.id) == w.eligible_open(slot.id));
        assert(m.0.work_news(slot.watermark) == w.work_news(slot.watermark));
    }
    if plan(w).1.len() > 0 {
        if s.1.len() > 0 {
            assert(w.orchestrator_due());
        } else if m.1.len() > s.1.len() {
            let i = choose|i: int| 0 <= i < len && meta_due(#[trigger] s.0.metas[i]);
            assert(meta_due(w.metas[i]));
        } else {
            let i = choose|i: int|
                0 <= i < m.0.team.len() && m.0.team_due(#[trigger] m.0.team[i]);
            assert(w.team_due(w.team[i]));
        }
    }
    if w.busy() && d.permits > 0 {
        if w.orchestrator_due() {
            assert(s.1.len() > 0);
        } else if exists|i: int| 0 <= i < w.metas.len() && meta_due(#[trigger] w.metas[i]) {
            let i = choose|i: int| 0 <= i < w.metas.len() && meta_due(#[trigger] w.metas[i]);
            assert(meta_due(s.0.metas[i]));
            assert(m.1.len() > s.1.len());
        } else {
            let i = choose|i: int| 0 <= i < w.team.len() && w.team_due(#[trigger] w.team[i]);
            assert(m.0.team_due(m.0.team[i]));
            assert(plan(w).1.len() > m.1.len());
        }
    }
}

/// A pending directive does not keep the watchdog from seeing a stall.
pub proof fn directives_do_not_hide_a_stall(
    w: WorldView,
    directives: Seq<crate::directive::DirectiveView>,
)
    ensures
        w.stalled() == (WorldView { directives, ..w }).stalled(),
{
    let v = WorldView { directives, ..w };
    lemma_same_counts(w, v, w.board.tasks.len() as int);
    assert(forall|i: int| 0 <= i < w.team.len() ==> v.team[i] == #[trigger] w.team[i]);
}

proof fn lemma_same_counts(w: WorldView, v: WorldView, n: int)
    requires
        w.board == v.board,
        w.team == v.team,
    ensures
        w.open_count(n) == v.open_count(n),
        w.stuck_count(n) == v.stuck_count(n),
    decreases n,
{
    if n > 0 {
        lemma_same_counts(w, v, n - 1);
    }
}

proof fn lemma_plans_keep_lead(start: Planned, n: int)
    requires
        start.1.len() > 0,
    ensures
        plan_metas(start, n).1.len() > 0,
        plan_metas(start, n).1[0] == start.1[0],
        plan_metas(start, n).0.forced_tick == start.0.forced_tick,
        plan_team(start, n).1.len() > 0,
        plan_team(start, n).1[0] == start.1[0],
        plan_team(start, n).0.forced_tick == start.0.forced_tick,
    decreases n,
{
    if n > 0 {
        lemma_plans_keep_lead(start, n - 1);
    }
}

/// A nudge forces one turn of the orchestrator and wakes nobody: team agents, their permits and the
/// board stay as they are, the next plan starts with the orchestrator, and then nothing is forced any
/// more.
pub proof fn nudges_force_one_turn(w: WorldView)
    requires
        watched(w).1 is Force,
    ensures
        watched(w).0.team == w.team,
        watched(w).0.board == w.board,
        watched(w).0.permits == w.permits,
        plan(watched(w).0).1.len() > 0,
        plan(watched(w).0).1[0] == (TurnPlan {
            agent: AgentId::Orchestrator,
            role: Role::Orchestrator,
        }),
        !plan(watched(w).0).0.forced_tick,
{
    let v = watched(w).0;
    let first = plan_orchestrator(debt_settled(v));
    lemma_plans_keep_lead(first, v.metas.len() as int);
    lemma_plans_keep_lead(plan_metas(first, v.metas.len() as int), v.team.len() as int);
}

/// The place of a role in a plan.
pub open spec fn role_place(role: Role) -> int {
    match role {
        Role::Orchestrator => 0,
        Role::MetaAgent => 1,
        Role::TeamAgent => 2,
    }
}

/// One planned turn comes before another: by role, then by the agents' numbers.
pub open spec fn comes_before(p: TurnPlan, q: TurnPlan) -> bool {
    role_place(p.role) < role_place(q.role) || (p.role == q.role && number_of(p.agent) < number_of(
        q.agent,
    ))
}

/// Turns in the order of their agents, no agent twice.
pub open spec fn in_line(plans: Seq<TurnPlan>) -> bool {
    forall|i: int, j: int|
        0 <= i < j < plans.len() ==> comes_before(#[trigger] plans[i], #[trigger] plans[j])
}

/// The turn is that of the meta-agent with the given books, which had none under way and has one
/// now.
pub open spec fn meta_taken(p: TurnPlan, before: ControlView, now: ControlView) -> bool {
    &&& p == (TurnPlan { agent: before.id, role: Role::MetaAgent })
    &&& meta_due(before)
    &&& now.id == before.id
    &&& now.in_flight
}

/// The turn is that of the team agent with the given books, which was awake, had none under way and
/// has one now.
pub open spec fn team_taken(p: TurnPlan, before: SlotView, now: SlotView) -> bool {
    &&& p == (TurnPlan { agent: before.id, role: Role::TeamAgent })
    &&& !before.in_flight
    &&& !(before.state is Asleep)
    &&& now == (SlotView { in_flight: true, ..before })
}

proof fn lemma_metas_in_line(start: Planned, n: int)
    requires
        0 <= n <= start.0.metas.len(),
        start.0.turns_in_flight + n <= usize::MAX,
        metas_in_order(start.0.metas),
        in_line(start.1),
        forall|i: int| 0 <= i < start.1.len() ==> (#[trigger] start.1[i]).role is Orchestrator,
    ensures
        ({
            let (w, plans) = plan_metas(start, n);
            &&& in_line(plans)
            &&& plans.len() >= start.1.len()
            &&& w.metas.len() == start.0.metas.len()
            &&& w.orchestrator == start.0.orchestrator
            &&& w.turns_in_flight == start.0.turns_in_flight + plans.len() - start.1.len()
            &&& plans.len() <= start.1.len() + n
            &&& forall|i: int| 0 <= i < start.1.len() ==> #[trigger] plans[i] == start.1[i]
            &&& forall|i: int|
                start.1.len() <= i < plans.len() ==> exists|k: int|
                    0 <= k < n && meta_taken(
                        #[trigger] plans[i],
                        #[trigger] start.0.metas[k],
                        w.metas[k],
                    )
        }),
    decreases n,
{
    if n > 0 {
        lemma_metas_in_line(start, n - 1);
        lemma_plan_metas(start, n - 1);
        let (v, old) = plan_metas(start, n - 1);
        let (w, plans) = plan_metas(start, n);
        let slot = v.metas[n - 1];
        assert(slot == start.0.metas[n - 1]);
        assert forall|i: int| start.1.len() <= i < plans.len() implies exists|k: int|
            0 <= k < n && meta_taken(#[trigger] plans[i], #[trigger] start.0.metas[k], w.metas[k]) by {
            if i < old.len() {
                let k = choose|k: int|
                    0 <= k < n - 1 && meta_taken(old[i], #[trigger] start.0.metas[k], v.metas[k]);
                assert(plans[i] == old[i]);
                assert(w.metas[k] == v.metas[k]);
                assert(meta_taken(plans[i], start.0.metas[k], w.metas[k]));
            } else {
                assert(meta_taken(plans[i], start.0.metas[n - 1], w.metas[n - 1]));
            }
        }
        assert forall|i: int, j: int| 0 <= i < j < plans.len() implies comes_before(
            #[trigger] plans[i],
            #[trigger] plans[j],
        ) by {
            if j < old.len() {
                assert(comes_before(old[i], old[j]));
            } else if i < start.1.len() {
                assert(start.1[i].role is Orchestrator);
            } else {
                let k = choose|k: int|
                    0 <= k < n - 1 && meta_taken(old[i], #[trigger] start.0.metas[k], v.metas[k]);
                assert(number_of(start.0.metas[k].id) < number_of(start.0.metas[n - 1].id));
            }
        }
    }
}

proof fn lemma_team_in_line(start: Planned, n: int)
    requires
        0 <= n <= start.0.team.len(),
        start.0.turns_in_flight + n <= usize::MAX,
        team_in_order(start.0.team),
        in_line(start.1),
        forall|i: int| 0 <= i < start.1.len() ==> !((#[trigger] start.1[i]).role is TeamAgent),
    ensures
        ({
            let (w, plans) = plan_team(start, n);
            &&& in_line(plans)
            &&& plans.len() >= start.1.len()
            &&& w.team.len() == start.0.team.len()
            &&& w.orchestrator == start.0.orchestrator
            &&& w.metas == start.0.metas
            &&& w.turns_in_flight == start.0.turns_in_flight + plans.len() - start.1.len()
            &&& plans.len() <= start.1.len() + n
            &&& forall|i: int| 0 <= i < start.1.len() ==> #[trigger] plans[i] == start.1[i]
            &&& forall|i: int|
                start.1.len() <= i < plans.len() ==> exists|k: int|
                    0 <= k < n && team_taken(
                        #[trigger] plans[i],
                        #[trigger] start.0.team[k],
                        w.team[k],
                    )
        }),
    decreases n,
{
    if n > 0 {
        lemma_team_in_line(start, n - 1);
        lemma_plan_team(start, n - 1);
        let (v, old) = plan_team(start, n - 1);
        let (w, plans) = plan_team(start, n);
        let slot = v.team[n - 1];
        assert(slot == start.0.team[n - 1]);
        assert forall|i: int| start.1.len() <= i < plans.len() implies exists|k: int|
            0 <= k < n && team_taken(#[trigger] plans[i], #[trigger] start.0.team[k], w.team[k]) by {
            if i < old.len() {
                let k = choose|k: int|
                    0 <= k < n - 1 && team_taken(old[i], #[trigger] start.0.team[k], v.team[k]);
                assert(plans[i] == old[i]);
                assert(w.team[k] == v.team[k]);
                assert(team_taken(plans[i], start.0.team[k], w.team[k]));
            } else {
                assert(team_taken(plans[i], start.0.team[n - 1], w.team[n - 1]));
            }
        }
        assert forall|i: int, j: int| 0 <= i < j < plans.len() implies comes_before(
            #[trigger] plans[i],
            #[trigger] plans[j],
        ) by {
            if j < old.len() {
                assert(comes_before(old[i], old[j]));
            } else if i < start.1.len() {
                assert(!(start.1[i].role is TeamAgent));
            } else {
                let k = choose|k: int|
                    0 <= k < n - 1 && team_taken(old[i], #[trigger] start.0.team[k], v.team[k]);
                assert(number_of(start.0.team[k].id) < number_of(start.0.team[n - 1].id));
            }
        }
    }
}

/// Planned turns come in order: the orchestrator's, then those of meta-agents, then those of team
/// agents, each by their numbers, and nobody has two. Whoever has one had none under way, has one
/// now, and is not asleep; the number of turns under way grows by the number of plans. A run that is
/// finishing plans nothing and changes nothing.
pub proof fn plans_come_in_order(w: WorldView)
    requires
        w.wf(),
        flight_room(w),
    ensures
        ({
            let (v, plans) = plan(w);
            &&& in_line(plans)
            &&& v.turns_in_flight == w.turns_in_flight + plans.len()
            &&& w.finishing is Some ==> v == w && plans.len() == 0
            &&& forall|i: int|
                0 <= i < plans.len() ==> match (#[trigger] plans[i]).role {
                    Role::Orchestrator => plans[i].agent is Orchestrator
                        && !w.orchestrator.in_flight && v.orchestrator.in_flight,
                    Role::MetaAgent => exists|k: int|
                        0 <= k < w.metas.len() && meta_taken(
                            plans[i],
                            #[trigger] w.metas[k],
                            v.metas[k],
                        ),
                    Role::TeamAgent => exists|k: int|
                        0 <= k < w.team.len() && team_taken(
                            plans[i],
                            #[trigger] w.team[k],
                            v.team[k],
                        ),
                }
        }),
{
    if w.finishing is None {
        let a = plan_orchestrator(debt_settled(w));
        let n = w.metas.len() as int;
        lemma_metas_in_line(a, n);
        lemma_plan_metas(a, n);
        let b = plan_metas(a, n);
        assert forall|i: int| 0 <= i < b.1.len() implies !((#[trigger] b.1[i]).role is TeamAgent) by {
            if i >= a.1.len() {
                let k = choose|k: int|
                    0 <= k < n && meta_taken(b.1[i], #[trigger] a.0.metas[k], b.0.metas[k]);
                assert(b.1[i].role is MetaAgent);
            } else {
                assert(b.1[i] == a.1[i]);
            }
        }
        lemma_team_in_line(b, w.team.len() as int);
        let (v, plans) = plan(w);
        assert forall|i: int| 0 <= i < plans.len() implies match (#[trigger] plans[i]).role {
            Role::Orchestrator => plans[i].agent is Orchestrator && !w.orchestrator.in_flight
                && v.orchestrator.in_flight,
            Role::MetaAgent => exists|k: int|
                0 <= k < w.metas.len() && meta_taken(plans[i], #[trigger] w.metas[k], v.metas[k]),
            Role::TeamAgent => exists|k: int|
                0 <= k < w.team.len() && team_taken(plans[i], #[trigger] w.team[k], v.team[k]),
        } by {
            if i < a.1.len() {
                assert(plans[i] == b.1[i] && b.1[i] == a.1[i]);
            } else if i < b.1.len() {
                assert(plans[i] == b.1[i]);
                let k = choose|k: int|
                    0 <= k < n && meta_taken(b.1[i], #[trigger] a.0.metas[k], b.0.metas[k]);
                assert(meta_taken(plans[i], w.metas[k], v.metas[k]));
            } else {
                let k = choose|k: int|
                    0 <= k < w.team.len() && team_taken(
                        plans[i],
                        #[trigger] b.0.team[k],
                        v.team[k],
                    );
                assert(team_taken(plans[i], w.team[k], v.team[k]));
            }
        }
    }
}

} // verus!
