//! How a log ends: a run that is finishing has logged its end, as its last event, and logs nothing
//! more.
use crate::agent::{AgentId, Role};
use crate::context::{degraded_in, drained_in, role_sections, CharCountTokenizer, ProfileView};
use crate::directive::DirectiveKind;
use crate::dispatch::{call_step, Replies};
use crate::event::{text_view, CapKind, Event, EventSource, KindView, Timestamp, TurnOutcome};
use crate::exchange::{asked, heard, Completion};
use crate::ids::{DirectiveId, RunId, TaskId};
use crate::knowledge::ScoredEntry;
use crate::llm::LlmError;
use crate::rerun::{advanced, run_after, started, Outside, Phase, RunState};
use crate::run::{blank_world, start_event, RunConfig};
use crate::schedule::{
    debt_settled, plan_metas, plan_orchestrator, plan_team, scheduled, watched, Planned,
};
use crate::serve::discovery::{ends_run, standing};
use crate::text::texts;
use crate::tools::{ToolView, VerbArgs};
use crate::turn::{
    begun, concluded, degraded, delivered, ended, prompt_sections, settled, ticked,
    turn_event, turn_over, weighed, TurnProgress,
};
use crate::verbs::{
    cancel_step, claim_step, complete_step, create_step, decline_step, dissolve_step, fault,
    form_step, members_step, meta_sleep_step, meta_wake_step, parallel_step, post_step, profile_of,
    propose_step, release_step, respecialize_step, self_sleep_step, sleep_step, unassign_step,
    wake_step, write_step,
};
use crate::world::WorldView;
use vstd::prelude::*;

verus! {

/// The run goes on: it is not finishing, and its log holds no end.
pub open spec fn unfinished(w: WorldView) -> bool {
    &&& w.finishing is None
    &&& forall|i: int| 0 <= i < w.events.len() ==> !((#[trigger] w.events[i]).kind is RunFinished)
}

/// The run has ended: it is finishing, the last event of its log is its end, with the reason and the
/// exit code, and no other event is.
pub open spec fn ended_log(w: WorldView) -> bool {
    &&& w.finishing is Some
    &&& w.events.len() > 0
    &&& w.finishing matches Some((reason, exit_code)) ==> w.events.last().kind
        == (KindView::RunFinished { reason, exit_code })
    &&& forall|i: int|
        0 <= i < w.events.len() - 1 ==> !((#[trigger] w.events[i]).kind is RunFinished)
}

/// The log ends with the run's end exactly if the run is finishing.
pub open spec fn sealed(w: WorldView) -> bool {
    unfinished(w) || ended_log(w)
}

/// Anything but its end leaves a run unfinished.
broadcast proof fn lemma_log_unfinished(w: WorldView, source: EventSource, kind: KindView)
    requires
        unfinished(w),
        !(kind is RunFinished),
    ensures
        unfinished(#[trigger] w.log(source, kind)),
{
}

proof fn lemma_claim_unfinished(w: WorldView, c: AgentId, id: TaskId)
    requires
        unfinished(w),
    ensures
        unfinished(claim_step(w, c, id).0),
{
    broadcast use lemma_log_unfinished;

}

proof fn lemma_complete_unfinished(w: WorldView, c: AgentId, x: Seq<char>, f: Option<Seq<char>>)
    requires
        unfinished(w),
    ensures
        unfinished(complete_step(w, c, x, f).0),
{
    broadcast use lemma_log_unfinished;

}

proof fn lemma_release_unfinished(w: WorldView, c: AgentId, r: Option<Seq<char>>)
    requires
        unfinished(w),
    ensures
        unfinished(release_step(w, c, r).0),
{
    broadcast use lemma_log_unfinished;

}

proof fn lemma_post_unfinished(
    w: WorldView,
    c: AgentId,
    to: Option<Seq<char>>,
    team: Option<Seq<char>>,
    all: Option<bool>,
    x: Seq<char>,
    f: Option<Seq<char>>,
)
    requires
        unfinished(w),
    ensures
        unfinished(post_step(w, c, to, team, all, x, f).0),
{
    broadcast use lemma_log_unfinished;

}

proof fn lemma_write_unfinished(w: WorldView, c: AgentId, x: Seq<char>, f: Option<Seq<char>>)
    requires
        unfinished(w),
    ensures
        unfinished(write_step(w, c, x, f).0),
{
    broadcast use lemma_log_unfinished;

}

proof fn lemma_self_sleep_unfinished(w: WorldView, c: AgentId)
    requires
        unfinished(w),
    ensures
        unfinished(self_sleep_step(w, c).0),
{
    broadcast use lemma_log_unfinished;

}

proof fn lemma_create_unfinished(
    w: WorldView,
    c: AgentId,
    t: Seq<char>,
    x: Seq<char>,
    g: Option<Seq<char>>,
)
    requires
        unfinished(w),
    ensures
        unfinished(create_step(w, c, t, x, g).0),
{
    broadcast use lemma_log_unfinished;

}

proof fn lemma_cancel_unfinished(w: WorldView, c: AgentId, id: TaskId, r: Seq<char>)
    requires
        unfinished(w),
    ensures
        unfinished(cancel_step(w, c, id, r).0),
{
    broadcast use lemma_log_unfinished;

}

proof fn lemma_unassign_unfinished(
    w: WorldView,
    c: AgentId,
    id: TaskId,
    r: Option<Seq<char>>,
    n: Option<u64>,
)
    requires
        unfinished(w),
    ensures
        unfinished(unassign_step(w, c, id, r, n).0),
{
    broadcast use lemma_log_unfinished;

}

proof fn lemma_form_unfinished(w: WorldView, c: AgentId, t: Seq<char>, m: Seq<Seq<char>>)
    requires
        unfinished(w),
    ensures
        unfinished(form_step(w, c, t, m).0),
{
    broadcast use lemma_log_unfinished;

}

proof fn lemma_dissolve_unfinished(w: WorldView, c: AgentId, t: Seq<char>)
    requires
        unfinished(w),
    ensures
        unfinished(dissolve_step(w, c, t).0),
{
    broadcast use lemma_log_unfinished;

}

proof fn lemma_members_unfinished(
    w: WorldView,
    c: AgentId,
    t: Seq<char>,
    m: Seq<Seq<char>>,
    n: Option<u64>,
)
    requires
        unfinished(w),
    ensures
        unfinished(members_step(w, c, t, m, n).0),
{
    broadcast use lemma_log_unfinished;

}

proof fn lemma_respecialize_unfinished(
    w: WorldView,
    c: AgentId,
    h: Seq<char>,
    p: ProfileView,
    n: Option<u64>,
)
    requires
        unfinished(w),
    ensures
        unfinished(respecialize_step(w, c, h, p, n).0),
{
    broadcast use lemma_log_unfinished;

}

proof fn lemma_meta_sleep_unfinished(w: WorldView, c: AgentId, h: Seq<char>)
    requires
        unfinished(w),
    ensures
        unfinished(meta_sleep_step(w, c, h).0),
{
    broadcast use lemma_log_unfinished;

}

proof fn lemma_sleep_unfinished(w: WorldView, c: AgentId, h: Seq<char>)
    requires
        unfinished(w),
    ensures
        unfinished(sleep_step(w, c, h).0),
{
    broadcast use lemma_log_unfinished;

}

proof fn lemma_meta_wake_unfinished(w: WorldView, c: AgentId, h: Seq<char>)
    requires
        unfinished(w),
    ensures
        unfinished(meta_wake_step(w, c, h).0),
{
    broadcast use lemma_log_unfinished;

}

proof fn lemma_wake_unfinished(w: WorldView, c: AgentId, h: Seq<char>)
    requires
        unfinished(w),
    ensures
        unfinished(wake_step(w, c, h).0),
{
    broadcast use lemma_log_unfinished;

}

proof fn lemma_decline_unfinished(w: WorldView, c: AgentId, id: DirectiveId, r: Seq<char>)
    requires
        unfinished(w),
    ensures
        unfinished(decline_step(w, c, id, r).0),
{
    broadcast use lemma_log_unfinished;

}

proof fn lemma_parallel_unfinished(w: WorldView, c: AgentId, n: u32)
    requires
        unfinished(w),
    ensures
        unfinished(parallel_step(w, c, n).0),
{
    broadcast use lemma_log_unfinished;

}

proof fn lemma_propose_unfinished(w: WorldView, c: AgentId, k: DirectiveKind, raw: Seq<char>)
    requires
        unfinished(w),
    ensures
        unfinished(propose_step(w, c, k, raw).0),
{
    broadcast use lemma_log_unfinished;

}

// ---------------------------------------------------------------------------
// Steps.
// ---------------------------------------------------------------------------

proof fn lemma_capped_sealed(w: WorldView, cap: CapKind, limit: u64, seen: u64)
    requires
        sealed(w),
    ensures
        ended_log(w.capped(cap, limit, seen)),
        w.finishing is Some ==> w.capped(cap, limit, seen) == w,
{
}

proof fn lemma_failed_sealed(w: WorldView, message: Seq<char>)
    requires
        sealed(w),
    ensures
        ended_log(w.failed(message)),
        w.finishing is Some ==> w.failed(message) == w,
{
}

proof fn lemma_over_sealed(w: WorldView, agent: AgentId, role: Role)
    requires
        sealed(w),
    ensures
        sealed(turn_over(w, agent, role)),
        turn_over(w, agent, role).events == w.events,
        turn_over(w, agent, role).finishing == w.finishing,
{
}

proof fn lemma_begun_sealed(
    w: WorldView,
    agent: AgentId,
    role: Role,
    pool: Option<usize>,
    hits: Seq<ScoredEntry>,
)
    requires
        sealed(w),
    ensures
        sealed(begun(w, agent, role, pool, hits)),
        begun(w, agent, role, pool, hits).finishing == w.finishing,
        w.finishing is Some ==> begun(w, agent, role, pool, hits).events == w.events,
{
    broadcast use lemma_log_unfinished;

    if w.finishing is None {
        let sections = prompt_sections(w, agent, role, pool, hits);
        let n = drained_in(sections);
        let lost = degraded_in(&CharCountTokenizer, role_sections(role), sections);
        let told = delivered(w, agent, n);
        assert(unfinished(told));
        assert(unfinished(degraded(told, agent, lost)));
        lemma_over_sealed(degraded(told, agent, lost), agent, role);
    } else {
        lemma_over_sealed(w, agent, role);
    }
}

proof fn lemma_asked_sealed(w: WorldView, agent: AgentId, role: Role, max: Option<u64>)
    requires
        sealed(w),
    ensures
        sealed(asked(w, agent, role, max).0),
        asked(w, agent, role, max).1 ==> asked(w, agent, role, max).0.finishing is None,
        w.finishing is Some ==> asked(w, agent, role, max).0.events == w.events
            && asked(w, agent, role, max).0.finishing == w.finishing,
{
    lemma_over_sealed(w, agent, role);
    if let Some(m) = max {
        lemma_capped_sealed(w, CapKind::MaxLlmCalls, m, w.llm_calls);
        lemma_over_sealed(w.capped(CapKind::MaxLlmCalls, m, w.llm_calls), agent, role);
    }
}

proof fn lemma_heard_sealed(w: WorldView, p: TurnProgress, reply: Result<Completion, LlmError>)
    requires
        sealed(w),
    ensures
        sealed(heard(w, p, reply)),
        w.finishing is Some ==> heard(w, p, reply).events == w.events && heard(
            w,
            p,
            reply,
        ).finishing == w.finishing,
{
    lemma_over_sealed(w, p.agent, p.role);
    let message = match reply {
        Err(e) => "llm completion failed for "@ + p.agent.handle() + ": "@ + e.text(),
        Ok(_) => "llm returned no choices for "@ + p.agent.handle(),
    };
    lemma_failed_sealed(w, message);
    lemma_over_sealed(w.failed(message), p.agent, p.role);
}

proof fn lemma_settled_sealed(
    w: WorldView,
    p: TurnProgress,
    outcome: TurnOutcome,
    max_ticks: Option<u64>,
)
    requires
        sealed(w),
    ensures
        sealed(settled(w, p, outcome, max_ticks)),
        w.finishing is Some ==> settled(w, p, outcome, max_ticks) == w,
{
    broadcast use lemma_log_unfinished;

    if w.finishing is None {
        let logged = w.log(EventSource::Agent(p.agent), turn_event(p, outcome));
        assert(unfinished(logged));
        let ticks = (logged.ticks + 1) as u64;
        let ticking = WorldView { ticks, ..logged };
        assert(unfinished(ticking));
        if let Some(m) = max_ticks {
            lemma_capped_sealed(ticking, CapKind::MaxTicks, m, ticks);
        }
        assert(sealed(ticked(logged, max_ticks)));
        assert(unfinished(weighed(logged, p)));
        lemma_concluded_sealed(ticked(logged, max_ticks), p);
        lemma_concluded_sealed(weighed(logged, p), p);
        lemma_concluded_sealed(logged, p);
    }
}

proof fn lemma_concluded_sealed(w: WorldView, p: TurnProgress)
    requires
        sealed(w),
    ensures
        sealed(concluded(w, p)),
{
}

proof fn lemma_ended_sealed(
    w: WorldView,
    p: TurnProgress,
    outcome: TurnOutcome,
    max_ticks: Option<u64>,
    io_error: Option<Seq<char>>,
)
    requires
        sealed(w),
    ensures
        sealed(ended(w, p, outcome, max_ticks, io_error)),
        w.finishing is Some ==> ended(w, p, outcome, max_ticks, io_error).events == w.events
            && ended(w, p, outcome, max_ticks, io_error).finishing == w.finishing,
{
    lemma_settled_sealed(w, p, outcome, max_ticks);
    let done = settled(w, p, outcome, max_ticks);
    if let Some(e) = io_error {
        let message = "events.jsonl write failed: "@ + e;
        lemma_failed_sealed(done, message);
        lemma_over_sealed(done.failed(message), p.agent, p.role);
    }
    lemma_over_sealed(done, p.agent, p.role);
}

/// Planning logs nothing.
proof fn lemma_plans_quiet(start: Planned, n: int)
    ensures
        plan_metas(start, n).0.events == start.0.events,
        plan_metas(start, n).0.finishing == start.0.finishing,
        plan_team(start, n).0.events == start.0.events,
        plan_team(start, n).0.finishing == start.0.finishing,
    decreases n,
{
    if n > 0 {
        lemma_plans_quiet(start, n - 1);
    }
}

proof fn lemma_scheduled_sealed(w: WorldView, io_error: Option<Seq<char>>)
    requires
        sealed(w),
    ensures
        sealed(scheduled(w, io_error).0),
        w.finishing is Some ==> scheduled(w, io_error).0 == w,
        w.finishing is Some ==> (scheduled(w, io_error).1 matches Some(plans) ==> plans.len() == 0),
{
    let checked = match io_error {
        Some(e) => w.failed("events.jsonl write failed: "@ + e),
        None => w,
    };
    if let Some(e) = io_error {
        lemma_failed_sealed(w, "events.jsonl write failed: "@ + e);
    }
    let first = plan_orchestrator(debt_settled(checked));
    lemma_plans_quiet(first, checked.metas.len() as int);
    lemma_plans_quiet(plan_metas(first, checked.metas.len() as int), checked.team.len() as int);
}

proof fn lemma_watched_sealed(w: WorldView)
    requires
        sealed(w),
    ensures
        sealed(watched(w).0),
        w.finishing is Some ==> watched(w).0 == w,
{
    broadcast use lemma_log_unfinished;

}

// ---------------------------------------------------------------------------
// Laws.
// ---------------------------------------------------------------------------

/// A run starts unfinished.
pub proof fn runs_start_unfinished(config: RunConfig, run: RunId, now: Timestamp)
    ensures
        unfinished(blank_world(config, now).log(EventSource::System, start_event(config, run))),
{
}

/// No call ends a run, nor logs that it has ended: an accepted request to finish does so only when
/// the turn ends.
pub proof fn calls_leave_runs_unfinished(
    w: WorldView,
    tools: Seq<ToolView>,
    role: Role,
    caller: AgentId,
    name: Seq<char>,
    decoded: Result<VerbArgs, String>,
    replies: Replies,
)
    requires
        unfinished(w),
    ensures
        unfinished(call_step(w, tools, role, caller, name, decoded, replies).0),
{
    let f = fault(replies.embedded);
    if let Ok(args) = decoded {
        match args {
            VerbArgs::ClaimTask(x) => lemma_claim_unfinished(w, caller, TaskId(x.task)),
            VerbArgs::CompleteTask(x) => lemma_complete_unfinished(w, caller, x.result@, f),
            VerbArgs::ReleaseTask(x) => lemma_release_unfinished(w, caller, text_view(x.reason)),
            VerbArgs::PostMessage(x) => lemma_post_unfinished(
                w,
                caller,
                text_view(x.to),
                text_view(x.team),
                x.broadcast,
                x.body@,
                f,
            ),
            VerbArgs::WriteKnowledge(x) => lemma_write_unfinished(w, caller, x.text@, f),
            VerbArgs::SearchKnowledge(_) => {},
            VerbArgs::Sleep(_) => lemma_self_sleep_unfinished(w, caller),
            VerbArgs::CreateTask(x) => lemma_create_unfinished(
                w,
                caller,
                x.title@,
                x.description@,
                text_view(x.team),
            ),
            VerbArgs::CancelTask(x) => lemma_cancel_unfinished(w, caller, TaskId(x.task), x.reason@),
            VerbArgs::UnassignTask(x) => lemma_unassign_unfinished(
                w,
                caller,
                TaskId(x.task),
                text_view(x.reason),
                x.in_response_to,
            ),
            VerbArgs::FormTeam(x) => lemma_form_unfinished(w, caller, x.team@, texts(x.members@)),
            VerbArgs::DissolveTeam(x) => lemma_dissolve_unfinished(w, caller, x.team@),
            VerbArgs::SetTeamMembers(x) => lemma_members_unfinished(
                w,
                caller,
                x.team@,
                texts(x.members@),
                x.in_response_to,
            ),
            VerbArgs::Respecialize(x) => lemma_respecialize_unfinished(
                w,
                caller,
                x.agent@,
                profile_of(x),
                x.in_response_to,
            ),
            VerbArgs::SleepAgent(x) => {
                lemma_meta_sleep_unfinished(w, caller, x.agent@);
                lemma_sleep_unfinished(w, caller, x.agent@);
            },
            VerbArgs::WakeAgent(x) => {
                lemma_meta_wake_unfinished(w, caller, x.agent@);
                lemma_wake_unfinished(w, caller, x.agent@);
            },
            VerbArgs::DeclineDirective(x) => lemma_decline_unfinished(
                w,
                caller,
                DirectiveId(x.directive),
                x.reason@,
            ),
            VerbArgs::FinishRun(_) => {},
            VerbArgs::SetParallelism(x) => lemma_parallel_unfinished(w, caller, x.target),
            VerbArgs::Propose(kind, raw) => lemma_propose_unfinished(w, caller, kind, raw@),
        }
    }
}

/// The last event of a run that is finishing is its end, with the reason and the exit code, and no
/// other event is: every step keeps this. Calls are only carried out in a run that is not finishing,
/// and leave it so.
pub proof fn logs_end_with_the_run(
    w: WorldView,
    p: TurnProgress,
    pool: Option<usize>,
    hits: Seq<ScoredEntry>,
    max_llm_calls: Option<u64>,
    reply: Result<Completion, LlmError>,
    outcome: TurnOutcome,
    max_ticks: Option<u64>,
    io_error: Option<Seq<char>>,
    cap: CapKind,
    limit: u64,
    message: Seq<char>,
)
    requires
        sealed(w),
    ensures
        sealed(begun(w, p.agent, p.role, pool, hits)),
        sealed(asked(w, p.agent, p.role, max_llm_calls).0),
        sealed(heard(w, p, reply)),
        sealed(ended(w, p, outcome, max_ticks, io_error)),
        sealed(turn_over(w, p.agent, p.role)),
        sealed(scheduled(w, io_error).0),
        sealed(watched(w).0),
        ended_log(w.capped(cap, limit, limit)),
        ended_log(w.failed(message)),
{
    lemma_begun_sealed(w, p.agent, p.role, pool, hits);
    lemma_asked_sealed(w, p.agent, p.role, max_llm_calls);
    lemma_heard_sealed(w, p, reply);
    lemma_ended_sealed(w, p, outcome, max_ticks, io_error);
    lemma_over_sealed(w, p.agent, p.role);
    lemma_scheduled_sealed(w, io_error);
    lemma_watched_sealed(w);
    lemma_capped_sealed(w, cap, limit, limit);
    lemma_failed_sealed(w, message);
}

/// Once a run is finishing nothing more is logged, and the reason and the exit code stand.
pub proof fn finished_logs_stay(
    w: WorldView,
    p: TurnProgress,
    pool: Option<usize>,
    hits: Seq<ScoredEntry>,
    max_llm_calls: Option<u64>,
    reply: Result<Completion, LlmError>,
    outcome: TurnOutcome,
    max_ticks: Option<u64>,
    io_error: Option<Seq<char>>,
    cap: CapKind,
    limit: u64,
    message: Seq<char>,
)
    requires
        ended_log(w),
    ensures
        same_end(w, begun(w, p.agent, p.role, pool, hits)),
        same_end(w, asked(w, p.agent, p.role, max_llm_calls).0),
        same_end(w, heard(w, p, reply)),
        same_end(w, ended(w, p, outcome, max_ticks, io_error)),
        same_end(w, turn_over(w, p.agent, p.role)),
        same_end(w, scheduled(w, io_error).0),
        same_end(w, watched(w).0),
        same_end(w, w.capped(cap, limit, limit)),
        same_end(w, w.failed(message)),
        !asked(w, p.agent, p.role, max_llm_calls).1,
{
    lemma_begun_sealed(w, p.agent, p.role, pool, hits);
    lemma_asked_sealed(w, p.agent, p.role, max_llm_calls);
    lemma_heard_sealed(w, p, reply);
    lemma_ended_sealed(w, p, outcome, max_ticks, io_error);
    lemma_over_sealed(w, p.agent, p.role);
    lemma_scheduled_sealed(w, io_error);
    lemma_watched_sealed(w);
    lemma_capped_sealed(w, cap, limit, limit);
    lemma_failed_sealed(w, message);
}

/// Who reads the log sees a finished run exactly if the run is finishing, whatever its lock says.
pub proof fn runs_stand_as_their_logs_say(w: WorldView, last: Event, lock_held: bool)
    requires
        sealed(w),
        w.events.len() > 0,
        last@ == w.events.last(),
    ensures
        standing(ends_run(Some(last)), lock_held) is Finished <==> w.finishing is Some,
{
    assert(w.events.last() == w.events[w.events.len() - 1]);
}

/// Two worlds have the same log and the same end.
pub open spec fn same_end(a: WorldView, b: WorldView) -> bool {
    a.events == b.events && a.finishing == b.finishing
}

/// A run under way is where the law puts it: its log is sealed, and calls are carried out only while
/// it is unfinished.
pub open spec fn orderly(s: RunState) -> bool {
    &&& sealed(s.w)
    &&& s.turn matches Some(t) ==> (t.phase is Acting ==> unfinished(s.w))
}

proof fn lemma_advanced_orderly(config: RunConfig, o: Outside, s: RunState)
    requires
        orderly(s),
    ensures
        orderly(advanced(config, o, s)),
{
    let w = s.w;
    if !s.over {
        match s.turn {
            None => if s.queue.len() == 0 {
                lemma_scheduled_sealed(w, None);
                lemma_watched_sealed(scheduled(w, None).0);
            } else {
                let plan = s.queue[0];
                lemma_begun_sealed(
                    w,
                    plan.agent,
                    plan.role,
                    config.assembly_budget,
                    crate::rerun::hits_for(o, w, plan.agent, plan.role),
                );
            },
            Some(t) => match t.phase {
                Phase::Asking => {
                    lemma_asked_sealed(w, t.p.agent, t.p.role, config.max_llm_calls);
                    let v = asked(w, t.p.agent, t.p.role, config.max_llm_calls).0;
                    assert forall|reply: Result<Completion, LlmError>| sealed(
                        #[trigger] heard(v, t.p, reply),
                    ) by {
                        lemma_heard_sealed(v, t.p, reply);
                    }
                },
                Phase::Acting { content, calls, done } => if done.len() < calls.len() {
                    let call = calls[done.len() as int];
                    let tools = (o.tools)(t.p.role);
                    let decoded = (o.decode)(call);
                    let replies = (o.replies)(
                        w.store,
                        crate::dispatch::wanted(w, tools, t.p.agent, call.name, decoded),
                        crate::dispatch::sought(tools, call.name, decoded),
                    );
                    calls_leave_runs_unfinished(
                        w,
                        tools,
                        t.p.role,
                        t.p.agent,
                        call.name,
                        decoded,
                        replies,
                    );
                },
                Phase::Ending(outcome) => {
                    lemma_ended_sealed(w, t.p, outcome, config.max_ticks, None);
                },
            },
        }
    }
}

/// Of every run, at every step: while it goes on its log holds no end, and when it is finishing the
/// last event of its log, and no other, is its end, with the reason and the exit code.
pub proof fn every_log_ends_with_its_run(
    config: RunConfig,
    o: Outside,
    run: RunId,
    now: Timestamp,
    n: nat,
)
    ensures
        sealed(run_after(config, o, started(config, run, now), n).w),
        orderly(run_after(config, o, started(config, run, now), n)),
    decreases n,
{
    if n == 0 {
        runs_start_unfinished(config, run, now);
    } else {
        every_log_ends_with_its_run(config, o, run, now, (n - 1) as nat);
        lemma_advanced_orderly(
            config,
            o,
            run_after(config, o, started(config, run, now), (n - 1) as nat),
        );
    }
}

} // verus!
