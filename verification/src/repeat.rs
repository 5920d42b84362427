//! Two runs that differ only in their clocks and in their run's number go the same way.
use crate::agent::{AgentId, Role};
use crate::context::{degraded_in, drained_in, role_sections, CharCountTokenizer, ProfileView, SectionView};
use crate::directive::DirectiveKind;
use crate::dispatch::{call_step, Replies};
use crate::event::{text_view, CapKind, DegradedView, EventSource, EventView, KindView, Timestamp, TurnOutcome};
use crate::exchange::{asked, call_line, channel_of, heard, Completion};
use crate::ids::{DirectiveId, RunId, TaskId};
use crate::knowledge::ScoredEntry;
use crate::llm::{ChannelView, LlmError};
use crate::metrics::MetricsView;
use crate::run::{blank_world, start_event, RunConfig};
use crate::schedule::{
    debt_settled, plan_metas, plan_orchestrator, plan_team, scheduled, watched, Planned, TurnPlan,
    WatchStep,
};
use crate::text::texts;
use crate::tools::{OutcomeView, ToolView, VerbArgs};
use crate::turn::{
    begun, concluded, degraded, delivered, ended, event_lines, known, next_call, opened,
    prompt_sections, query_of,
    recent_events, remembered, scene, settled, specialty_of, ticked, turn_event, turn_over,
    turns_begun, weighed,
    TurnProgress,
};
use crate::verbs::{
    fault, profile_of,
    cancel_step, claim_step, complete_step, create_step, decline_step, dissolve_step, finish_step,
    form_step, members_step, meta_sleep_step, meta_wake_step, parallel_step, pool_agents, post_step,
    propose_step, release_step, respecialize_step, self_sleep_step, sleep_step, unassign_step,
    wake_step, write_step,
};
use crate::wire::CallView;
use crate::world::{changes_work, meta_due, SlotView, WorldView};
use vstd::prelude::*;

verus! {

// ---------------------------------------------------------------------------
// What may differ.
// ---------------------------------------------------------------------------

/// Two events say the same, but for the number of the run that they start.
pub open spec fn same_kind(a: KindView, b: KindView) -> bool {
    match (a, b) {
        (
            KindView::RunStarted { seed, goal, agents, meta_agents, parallel, scenario, caps, .. },
            KindView::RunStarted { run_id, .. },
        ) => b == (KindView::RunStarted {
            run_id,
            seed,
            goal,
            agents,
            meta_agents,
            parallel,
            scenario,
            caps,
        }),
        _ => a == b,
    }
}

/// Two events are the same, but for the number of the run and, unless times count, when they
/// happened.
pub open spec fn same_event(timed: bool, a: EventView, b: EventView) -> bool {
    &&& timed ==> a.at == b.at
    &&& a.id == b.id
    &&& a.source == b.source
    &&& same_kind(a.kind, b.kind)
}

/// Two logs are the same, but for the number of the run and, unless times count, when things
/// happened.
pub open spec fn same_log(timed: bool, a: Seq<EventView>, b: Seq<EventView>) -> bool {
    &&& a.len() == b.len()
    &&& forall|i: int| 0 <= i < a.len() ==> same_event(timed, #[trigger] a[i], #[trigger] b[i])
}

/// Two sets of metrics are the same, but, unless times count, for when the run began and how long it
/// has lasted.
pub open spec fn same_metrics(timed: bool, a: MetricsView, b: MetricsView) -> bool {
    &&& b == (MetricsView { first_at: b.first_at, last_at: b.last_at, ..a })
    &&& timed ==> a == b
}

/// Two worlds are the same, but for the number of the run and, unless times count, their clocks.
pub open spec fn alike(timed: bool, a: WorldView, b: WorldView) -> bool {
    &&& timed ==> a.now == b.now
    &&& b == (WorldView { now: b.now, events: b.events, metrics: b.metrics, ..a })
    &&& same_metrics(timed, a.metrics, b.metrics)
    &&& same_log(timed, a.events, b.events)
}

// ---------------------------------------------------------------------------
// Logging.
// ---------------------------------------------------------------------------

proof fn lemma_folded_alike(timed: bool, a: MetricsView, b: MetricsView, e: EventView, f: EventView)
    requires
        same_metrics(timed, a, b),
        same_event(timed, e, f),
    ensures
        same_metrics(timed, a.folded(e), b.folded(f)),
{
    reveal(MetricsView::folded);
    if let KindView::MessageSent { address, .. } = e.kind {
        assert(a.recipients(e.source.actor(), address) == b.recipients(f.source.actor(), address))
            by {
            if address is Broadcast {
                let all = |m: MetricsView|
                    Seq::new(
                        (m.team_agents.len() + 1) as nat,
                        |i: int|
                            if i == 0 {
                                AgentId::Orchestrator
                            } else {
                                m.team_agents[i - 1].id
                            },
                    );
                assert(all(a) =~= all(b));
            }
        }
    }
}

/// Folding events that differ only in when they happened.
proof fn lemma_fold_alike(timed: bool, a: MetricsView, b: MetricsView, e: EventView, f: EventView)
    requires
        same_metrics(timed, a, b),
        same_event(timed, e, f),
    ensures
        same_metrics(timed, a.fold(e), b.fold(f)),
{
    lemma_folded_alike(timed, a.seen(e), b.seen(f), e, f);
}

proof fn lemma_logged(timed: bool, a: WorldView, b: WorldView, source: EventSource, kind: KindView)
    requires
        alike(timed, a, b),
    ensures
        alike(timed, a.log(source, kind), b.log(source, kind)),
{
    let e = a.event(source, kind);
    let f = b.event(source, kind);
    lemma_fold_alike(timed, a.metrics, b.metrics, e, f);
    let (c, d) = (a.log(source, kind), b.log(source, kind));
    assert forall|i: int| 0 <= i < c.events.len() implies same_event(
        timed,
        #[trigger] c.events[i],
        #[trigger] d.events[i],
    ) by {
        if i < a.events.len() {
            assert(same_event(timed, a.events[i], b.events[i]));
        }
    }
}

/// Logging keeps worlds alike, whether or not times count.
broadcast proof fn lemma_log_alike(a: WorldView, b: WorldView, source: EventSource, kind: KindView)
    ensures
        ({
            let (c, d) = (#[trigger] a.log(source, kind), #[trigger] b.log(source, kind));
            &&& alike(true, a, b) ==> alike(true, c, d)
            &&& alike(false, a, b) ==> alike(false, c, d)
        }),
{
    if alike(true, a, b) {
        lemma_logged(true, a, b, source, kind);
    }
    if alike(false, a, b) {
        lemma_logged(false, a, b, source, kind);
    }
}

/// Two steps come out the same, but for clocks and the number of the run.
pub open spec fn same_step(timed: bool, a: (WorldView, OutcomeView), b: (WorldView, OutcomeView)) -> bool {
    alike(timed, a.0, b.0) && a.1 == b.1
}

proof fn lemma_pool_agents_alike(timed: bool, a: WorldView, b: WorldView, handles: Seq<Seq<char>>)
    requires
        alike(timed, a, b),
    ensures
        pool_agents(a, handles) == pool_agents(b, handles),
    decreases handles.len(),
{
    if handles.len() > 0 {
        lemma_pool_agents_alike(timed, a, b, handles.drop_last());
    }
}

proof fn lemma_claim_alike(timed: bool, a: WorldView, b: WorldView, c: AgentId, id: TaskId)
    requires
        alike(timed, a, b),
    ensures
        same_step(timed, claim_step(a, c, id), claim_step(b, c, id)),
{
    broadcast use lemma_log_alike;
}

proof fn lemma_complete_alike(
    timed: bool,
    a: WorldView,
    b: WorldView,
    c: AgentId,
    x: Seq<char>,
    f: Option<Seq<char>>,
)
    requires
        alike(timed, a, b),
    ensures
        same_step(timed, complete_step(a, c, x, f), complete_step(b, c, x, f)),
{
    broadcast use lemma_log_alike;
}

proof fn lemma_release_alike(timed: bool, a: WorldView, b: WorldView, c: AgentId, r: Option<Seq<char>>)
    requires
        alike(timed, a, b),
    ensures
        same_step(timed, release_step(a, c, r), release_step(b, c, r)),
{
    broadcast use lemma_log_alike;
}

proof fn lemma_post_alike(
    timed: bool,
    a: WorldView,
    b: WorldView,
    c: AgentId,
    to: Option<Seq<char>>,
    team: Option<Seq<char>>,
    all: Option<bool>,
    x: Seq<char>,
    f: Option<Seq<char>>,
)
    requires
        alike(timed, a, b),
    ensures
        same_step(timed, post_step(a, c, to, team, all, x, f), post_step(b, c, to, team, all, x, f)),
{
    broadcast use lemma_log_alike;
}

proof fn lemma_write_alike(
    timed: bool,
    a: WorldView,
    b: WorldView,
    c: AgentId,
    x: Seq<char>,
    f: Option<Seq<char>>,
)
    requires
        alike(timed, a, b),
    ensures
        same_step(timed, write_step(a, c, x, f), write_step(b, c, x, f)),
{
    broadcast use lemma_log_alike;
}

proof fn lemma_self_sleep_alike(timed: bool, a: WorldView, b: WorldView, c: AgentId)
    requires
        alike(timed, a, b),
    ensures
        same_step(timed, self_sleep_step(a, c), self_sleep_step(b, c)),
{
    broadcast use lemma_log_alike;
}

proof fn lemma_create_alike(
    timed: bool,
    a: WorldView,
    b: WorldView,
    c: AgentId,
    t: Seq<char>,
    x: Seq<char>,
    g: Option<Seq<char>>,
)
    requires
        alike(timed, a, b),
    ensures
        same_step(timed, create_step(a, c, t, x, g), create_step(b, c, t, x, g)),
{
    broadcast use lemma_log_alike;
}

proof fn lemma_cancel_alike(timed: bool, a: WorldView, b: WorldView, c: AgentId, id: TaskId, r: Seq<char>)
    requires
        alike(timed, a, b),
    ensures
        same_step(timed, cancel_step(a, c, id, r), cancel_step(b, c, id, r)),
{
    broadcast use lemma_log_alike;
}

proof fn lemma_unassign_alike(
    timed: bool,
    a: WorldView,
    b: WorldView,
    c: AgentId,
    id: TaskId,
    r: Option<Seq<char>>,
    n: Option<u64>,
)
    requires
        alike(timed, a, b),
    ensures
        same_step(timed, unassign_step(a, c, id, r, n), unassign_step(b, c, id, r, n)),
{
    broadcast use lemma_log_alike;
}

proof fn lemma_form_alike(timed: bool, a: WorldView, b: WorldView, c: AgentId, t: Seq<char>, m: Seq<Seq<char>>)
    requires
        alike(timed, a, b),
    ensures
        same_step(timed, form_step(a, c, t, m), form_step(b, c, t, m)),
{
    broadcast use lemma_log_alike;
    lemma_pool_agents_alike(timed, a, b, m);
}

proof fn lemma_dissolve_alike(timed: bool, a: WorldView, b: WorldView, c: AgentId, t: Seq<char>)
    requires
        alike(timed, a, b),
    ensures
        same_step(timed, dissolve_step(a, c, t), dissolve_step(b, c, t)),
{
    broadcast use lemma_log_alike;
}

proof fn lemma_members_alike(
    timed: bool,
    a: WorldView,
    b: WorldView,
    c: AgentId,
    t: Seq<char>,
    m: Seq<Seq<char>>,
    n: Option<u64>,
)
    requires
        alike(timed, a, b),
    ensures
        same_step(timed, members_step(a, c, t, m, n), members_step(b, c, t, m, n)),
{
    broadcast use lemma_log_alike;
    lemma_pool_agents_alike(timed, a, b, m);
}

proof fn lemma_respecialize_alike(
    timed: bool,
    a: WorldView,
    b: WorldView,
    c: AgentId,
    h: Seq<char>,
    p: ProfileView,
    n: Option<u64>,
)
    requires
        alike(timed, a, b),
    ensures
        same_step(timed, respecialize_step(a, c, h, p, n), respecialize_step(b, c, h, p, n)),
{
    broadcast use lemma_log_alike;
}

proof fn lemma_meta_sleep_alike(timed: bool, a: WorldView, b: WorldView, c: AgentId, h: Seq<char>)
    requires
        alike(timed, a, b),
    ensures
        same_step(timed, meta_sleep_step(a, c, h), meta_sleep_step(b, c, h)),
{
    broadcast use lemma_log_alike;
}

proof fn lemma_sleep_alike(timed: bool, a: WorldView, b: WorldView, c: AgentId, h: Seq<char>)
    requires
        alike(timed, a, b),
    ensures
        same_step(timed, sleep_step(a, c, h), sleep_step(b, c, h)),
{
    broadcast use lemma_log_alike;
}

proof fn lemma_meta_wake_alike(timed: bool, a: WorldView, b: WorldView, c: AgentId, h: Seq<char>)
    requires
        alike(timed, a, b),
    ensures
        same_step(timed, meta_wake_step(a, c, h), meta_wake_step(b, c, h)),
{
    broadcast use lemma_log_alike;
}

proof fn lemma_wake_alike(timed: bool, a: WorldView, b: WorldView, c: AgentId, h: Seq<char>)
    requires
        alike(timed, a, b),
    ensures
        same_step(timed, wake_step(a, c, h), wake_step(b, c, h)),
{
    broadcast use lemma_log_alike;
}

proof fn lemma_decline_alike(timed: bool, a: WorldView, b: WorldView, c: AgentId, id: DirectiveId, r: Seq<char>)
    requires
        alike(timed, a, b),
    ensures
        same_step(timed, decline_step(a, c, id, r), decline_step(b, c, id, r)),
{
    broadcast use lemma_log_alike;
}

proof fn lemma_parallel_alike(timed: bool, a: WorldView, b: WorldView, c: AgentId, n: u32)
    requires
        alike(timed, a, b),
    ensures
        same_step(timed, parallel_step(a, c, n), parallel_step(b, c, n)),
{
    broadcast use lemma_log_alike;
}

proof fn lemma_propose_alike(
    timed: bool,
    a: WorldView,
    b: WorldView,
    c: AgentId,
    k: DirectiveKind,
    raw: Seq<char>,
)
    requires
        alike(timed, a, b),
    ensures
        same_step(timed, propose_step(a, c, k, raw), propose_step(b, c, k, raw)),
{
    broadcast use lemma_log_alike;
}

proof fn lemma_finish_alike(timed: bool, a: WorldView, b: WorldView, x: Seq<char>)
    requires
        alike(timed, a, b),
    ensures
        same_step(timed, finish_step(a, x), finish_step(b, x)),
{
}

/// A call goes the same way in worlds that are alike: it is answered the same, and the worlds stay
/// alike.
pub proof fn calls_repeat(
    timed: bool,
    a: WorldView,
    b: WorldView,
    tools: Seq<ToolView>,
    role: Role,
    caller: AgentId,
    name: Seq<char>,
    decoded: Result<VerbArgs, String>,
    replies: Replies,
)
    requires
        alike(timed, a, b),
    ensures
        same_step(
            timed,
            call_step(a, tools, role, caller, name, decoded, replies),
            call_step(b, tools, role, caller, name, decoded, replies),
        ),
{
    let f = fault(replies.embedded);
    if let Ok(args) = decoded {
        match args {
            VerbArgs::ClaimTask(x) => lemma_claim_alike(timed, a, b, caller, TaskId(x.task)),
            VerbArgs::CompleteTask(x) => lemma_complete_alike(timed, a, b, caller, x.result@, f),
            VerbArgs::ReleaseTask(x) => lemma_release_alike(timed, a, b, caller, text_view(x.reason)),
            VerbArgs::PostMessage(x) => lemma_post_alike(
                timed,
                a,
                b,
                caller,
                text_view(x.to),
                text_view(x.team),
                x.broadcast,
                x.body@,
                f,
            ),
            VerbArgs::WriteKnowledge(x) => lemma_write_alike(timed, a, b, caller, x.text@, f),
            VerbArgs::SearchKnowledge(_) => {},
            VerbArgs::Sleep(_) => lemma_self_sleep_alike(timed, a, b, caller),
            VerbArgs::CreateTask(x) => lemma_create_alike(
                timed,
                a,
                b,
                caller,
                x.title@,
                x.description@,
                text_view(x.team),
            ),
            VerbArgs::CancelTask(x) => lemma_cancel_alike(timed, a, b, caller, TaskId(x.task), x.reason@),
            VerbArgs::UnassignTask(x) => lemma_unassign_alike(
                timed,
                a,
                b,
                caller,
                TaskId(x.task),
                text_view(x.reason),
                x.in_response_to,
            ),
            VerbArgs::FormTeam(x) => lemma_form_alike(timed, a, b, caller, x.team@, texts(x.members@)),
            VerbArgs::DissolveTeam(x) => lemma_dissolve_alike(timed, a, b, caller, x.team@),
            VerbArgs::SetTeamMembers(x) => lemma_members_alike(
                timed,
                a,
                b,
                caller,
                x.team@,
                texts(x.members@),
                x.in_response_to,
            ),
            VerbArgs::Respecialize(x) => lemma_respecialize_alike(
                timed,
                a,
                b,
                caller,
                x.agent@,
                profile_of(x),
                x.in_response_to,
            ),
            VerbArgs::SleepAgent(x) => {
                lemma_meta_sleep_alike(timed, a, b, caller, x.agent@);
                lemma_sleep_alike(timed, a, b, caller, x.agent@);
            },
            VerbArgs::WakeAgent(x) => {
                lemma_meta_wake_alike(timed, a, b, caller, x.agent@);
                lemma_wake_alike(timed, a, b, caller, x.agent@);
            },
            VerbArgs::DeclineDirective(x) => lemma_decline_alike(
                timed,
                a,
                b,
                caller,
                DirectiveId(x.directive),
                x.reason@,
            ),
            VerbArgs::FinishRun(x) => lemma_finish_alike(timed, a, b, x.report@),
            VerbArgs::SetParallelism(x) => lemma_parallel_alike(timed, a, b, caller, x.target),
            VerbArgs::Propose(kind, raw) => lemma_propose_alike(timed, a, b, caller, kind, raw@),
        }
    }
}

// ---------------------------------------------------------------------------
// Turns.
// ---------------------------------------------------------------------------

proof fn lemma_digest_alike(timed: bool, a: MetricsView, b: MetricsView, n: int)
    requires
        same_metrics(timed, a, b),
    ensures
        a.digest_head(n) == b.digest_head(n),
        a.malformed_list(n) == b.malformed_list(n),
    decreases n,
{
    if n > 0 {
        lemma_digest_alike(timed, a, b, n - 1);
    }
}

/// A prompt shows the same in worlds that are alike: neither a time nor the number of the run.
pub proof fn prompts_repeat(
    timed: bool,
    a: WorldView,
    b: WorldView,
    agent: AgentId,
    role: Role,
    hits: Seq<ScoredEntry>,
)
    requires
        alike(timed, a, b),
    ensures
        query_of(a, agent, role) == query_of(b, agent, role),
        scene(a, agent, role, hits) == scene(b, agent, role, hits),
{
    lemma_digest_alike(timed, a.metrics, b.metrics, a.metrics.team_agents.len() as int);
    let (x, y) = (recent_events(a.events), recent_events(b.events));
    assert forall|i: int| 0 <= i < x.len() implies (#[trigger] x[i]).line() == y[i].line() by {
        let k = i + a.events.len() - x.len();
        assert(same_event(timed, a.events[k], b.events[k]));
    }
    assert(event_lines(x) =~= event_lines(y));
}

/// A turn begins the same way in worlds that are alike: the prompt is the same, the same mail is
/// delivered, and the same turn and call come next.
pub proof fn beginnings_repeat(
    timed: bool,
    a: WorldView,
    b: WorldView,
    agent: AgentId,
    role: Role,
    pool: Option<usize>,
    hits: Seq<ScoredEntry>,
)
    requires
        alike(timed, a, b),
    ensures
        prompt_sections(a, agent, role, pool, hits) == prompt_sections(b, agent, role, pool, hits),
        specialty_of(a, agent) == specialty_of(b, agent),
        turns_begun(a, agent, role) == turns_begun(b, agent, role),
        next_call(a, agent, role) == next_call(b, agent, role),
        alike(timed, begun(a, agent, role, pool, hits), begun(b, agent, role, pool, hits)),
{
    prompts_repeat(timed, a, b, agent, role, hits);
    let sections = prompt_sections(a, agent, role, pool, hits);
    assert(prompt_sections(b, agent, role, pool, hits) == sections);
    let n = drained_in(sections);
    let lost = degraded_in(&CharCountTokenizer, role_sections(role), sections);
    lemma_delivered_alike(timed, a, b, agent, n);
    let (c, d) = (delivered(a, agent, n), delivered(b, agent, n));
    lemma_degraded_alike(timed, c, d, agent, lost);
    lemma_opened_alike(timed, degraded(c, agent, lost), degraded(d, agent, lost), agent, role);
    lemma_turn_over_alike(timed, degraded(c, agent, lost), degraded(d, agent, lost), agent, role);
    lemma_turn_over_alike(timed, a, b, agent, role);
}

proof fn lemma_delivered_alike(timed: bool, a: WorldView, b: WorldView, agent: AgentId, n: nat)
    requires
        alike(timed, a, b),
    ensures
        alike(timed, delivered(a, agent, n), delivered(b, agent, n)),
{
    broadcast use lemma_log_alike;

}

proof fn lemma_degraded_alike(
    timed: bool,
    a: WorldView,
    b: WorldView,
    agent: AgentId,
    sections: Seq<DegradedView>,
)
    requires
        alike(timed, a, b),
    ensures
        alike(timed, degraded(a, agent, sections), degraded(b, agent, sections)),
{
    broadcast use lemma_log_alike;

}

pub proof fn lemma_opened_alike(timed: bool, a: WorldView, b: WorldView, agent: AgentId, role: Role)
    requires
        alike(timed, a, b),
    ensures
        known(a, agent, role) == known(b, agent, role),
        alike(timed, opened(a, agent, role), opened(b, agent, role)),
{
}

/// Asking the model, taking its reply and ending the turn go the same way in worlds that are alike:
/// the same call is made under the same identity.
pub proof fn exchanges_repeat(
    timed: bool,
    a: WorldView,
    b: WorldView,
    p: TurnProgress,
    max_llm_calls: Option<u64>,
    reply: Result<Completion, LlmError>,
    outcome: TurnOutcome,
    max_ticks: Option<u64>,
    io_error: Option<Seq<char>>,
)
    requires
        alike(timed, a, b),
    ensures
        channel_of(a, p.agent, p.role) == channel_of(b, p.agent, p.role),
        asked(a, p.agent, p.role, max_llm_calls).1 == asked(b, p.agent, p.role, max_llm_calls).1,
        alike(
            timed,
            asked(a, p.agent, p.role, max_llm_calls).0,
            asked(b, p.agent, p.role, max_llm_calls).0,
        ),
        alike(timed, heard(a, p, reply), heard(b, p, reply)),
        alike(
            timed,
            ended(a, p, outcome, max_ticks, io_error),
            ended(b, p, outcome, max_ticks, io_error),
        ),
{
    lemma_asked_alike(timed, a, b, p.agent, p.role, max_llm_calls);
    lemma_heard_alike(timed, a, b, p, reply);
    lemma_ended_alike(timed, a, b, p, outcome, max_ticks, io_error);
}

proof fn lemma_turn_over_alike(timed: bool, a: WorldView, b: WorldView, agent: AgentId, role: Role)
    requires
        alike(timed, a, b),
    ensures
        alike(timed, turn_over(a, agent, role), turn_over(b, agent, role)),
{
}

proof fn lemma_capped_alike(timed: bool, a: WorldView, b: WorldView, cap: CapKind, limit: u64, seen: u64)
    requires
        alike(timed, a, b),
    ensures
        alike(timed, a.capped(cap, limit, seen), b.capped(cap, limit, seen)),
{
    broadcast use lemma_log_alike;

}

proof fn lemma_failed_alike(timed: bool, a: WorldView, b: WorldView, message: Seq<char>)
    requires
        alike(timed, a, b),
    ensures
        alike(timed, a.failed(message), b.failed(message)),
{
    broadcast use lemma_log_alike;

}

pub proof fn lemma_asked_alike(
    timed: bool,
    a: WorldView,
    b: WorldView,
    agent: AgentId,
    role: Role,
    max: Option<u64>,
)
    requires
        alike(timed, a, b),
    ensures
        channel_of(a, agent, role) == channel_of(b, agent, role),
        asked(a, agent, role, max).1 == asked(b, agent, role, max).1,
        alike(timed, asked(a, agent, role, max).0, asked(b, agent, role, max).0),
{
    lemma_turn_over_alike(timed, a, b, agent, role);
    if let Some(m) = max {
        if a.llm_calls >= m {
            lemma_capped_alike(timed, a, b, CapKind::MaxLlmCalls, m, a.llm_calls);
            lemma_turn_over_alike(
                timed,
                a.capped(CapKind::MaxLlmCalls, m, a.llm_calls),
                b.capped(CapKind::MaxLlmCalls, m, a.llm_calls),
                agent,
                role,
            );
        }
    }
}

pub proof fn lemma_heard_alike(
    timed: bool,
    a: WorldView,
    b: WorldView,
    p: TurnProgress,
    reply: Result<Completion, LlmError>,
)
    requires
        alike(timed, a, b),
    ensures
        alike(timed, heard(a, p, reply), heard(b, p, reply)),
{
    lemma_turn_over_alike(timed, a, b, p.agent, p.role);
    let message = match reply {
        Err(e) => "llm completion failed for "@ + p.agent.handle() + ": "@ + e.text(),
        Ok(_) => "llm returned no choices for "@ + p.agent.handle(),
    };
    lemma_failed_alike(timed, a, b, message);
    lemma_turn_over_alike(timed, a.failed(message), b.failed(message), p.agent, p.role);
}

proof fn lemma_ticked_alike(timed: bool, a: WorldView, b: WorldView, max_ticks: Option<u64>)
    requires
        alike(timed, a, b),
    ensures
        alike(timed, ticked(a, max_ticks), ticked(b, max_ticks)),
{
    if let Some(m) = max_ticks {
        let ticks = (a.ticks + 1) as u64;
        lemma_capped_alike(
            timed,
            WorldView { ticks, ..a },
            WorldView { ticks, ..b },
            CapKind::MaxTicks,
            m,
            ticks,
        );
    }
}

proof fn lemma_weighed_alike(timed: bool, a: WorldView, b: WorldView, p: TurnProgress)
    requires
        alike(timed, a, b),
    ensures
        alike(timed, weighed(a, p), weighed(b, p)),
{
    broadcast use lemma_log_alike;

}

proof fn lemma_concluded_alike(timed: bool, a: WorldView, b: WorldView, p: TurnProgress)
    requires
        alike(timed, a, b),
    ensures
        alike(timed, concluded(a, p), concluded(b, p)),
{
    broadcast use lemma_log_alike;

}

proof fn lemma_settled_alike(
    timed: bool,
    a: WorldView,
    b: WorldView,
    p: TurnProgress,
    outcome: TurnOutcome,
    max_ticks: Option<u64>,
)
    requires
        alike(timed, a, b),
    ensures
        alike(timed, settled(a, p, outcome, max_ticks), settled(b, p, outcome, max_ticks)),
{
    let kind = turn_event(p, outcome);
    let source = EventSource::Agent(p.agent);
    lemma_log_alike(a, b, source, kind);
    let (c, d) = (a.log(source, kind), b.log(source, kind));
    match p.role {
        Role::Orchestrator => {
            lemma_ticked_alike(timed, c, d, max_ticks);
            lemma_concluded_alike(timed, ticked(c, max_ticks), ticked(d, max_ticks), p);
        },
        Role::TeamAgent => {
            lemma_weighed_alike(timed, c, d, p);
            lemma_concluded_alike(timed, weighed(c, p), weighed(d, p), p);
        },
        Role::MetaAgent => {
            lemma_concluded_alike(timed, c, d, p);
        },
    }
}

pub proof fn lemma_ended_alike(
    timed: bool,
    a: WorldView,
    b: WorldView,
    p: TurnProgress,
    outcome: TurnOutcome,
    max_ticks: Option<u64>,
    io_error: Option<Seq<char>>,
)
    requires
        alike(timed, a, b),
    ensures
        alike(
            timed,
            ended(a, p, outcome, max_ticks, io_error),
            ended(b, p, outcome, max_ticks, io_error),
        ),
{
    lemma_settled_alike(timed, a, b, p, outcome, max_ticks);
    let (c, d) = (settled(a, p, outcome, max_ticks), settled(b, p, outcome, max_ticks));
    match io_error {
        Some(e) => {
            let message = "events.jsonl write failed: "@ + e;
            lemma_failed_alike(timed, c, d, message);
            lemma_turn_over_alike(timed, c.failed(message), d.failed(message), p.agent, p.role);
        },
        None => {
            lemma_turn_over_alike(timed, c, d, p.agent, p.role);
        },
    }
}

// ---------------------------------------------------------------------------
// Scheduling.
// ---------------------------------------------------------------------------

proof fn lemma_news_alike(timed: bool, a: WorldView, b: WorldView, watermark: usize, agent: AgentId)
    requires
        alike(timed, a, b),
    ensures
        a.news_for(watermark, agent) == b.news_for(watermark, agent),
        a.work_news(watermark) == b.work_news(watermark),
{
    assert forall|i: int| 0 <= i < a.events.len() implies (#[trigger] a.events[i]).source
        == b.events[i].source && changes_work(a.events[i].kind) == changes_work(
        b.events[i].kind,
    ) by {
        assert(same_event(timed, a.events[i], b.events[i]));
    }
    if a.news_for(watermark, agent) {
        let i = choose|i: int|
            watermark <= i < a.events.len() && (#[trigger] a.events[i]).source.actor() != Some(
                agent,
            );
        assert(b.events[i].source.actor() != Some(agent));
    }
    if b.news_for(watermark, agent) {
        let i = choose|i: int|
            watermark <= i < b.events.len() && (#[trigger] b.events[i]).source.actor() != Some(
                agent,
            );
        assert(a.events[i].source.actor() != Some(agent));
    }
    if a.work_news(watermark) {
        let i = choose|i: int|
            watermark <= i < a.events.len() && changes_work((#[trigger] a.events[i]).kind);
        assert(changes_work(b.events[i].kind));
    }
    if b.work_news(watermark) {
        let i = choose|i: int|
            watermark <= i < b.events.len() && changes_work((#[trigger] b.events[i]).kind);
        assert(changes_work(a.events[i].kind));
    }
}

proof fn lemma_due_alike(timed: bool, a: WorldView, b: WorldView, slot: SlotView)
    requires
        alike(timed, a, b),
    ensures
        a.orchestrator_due() == b.orchestrator_due(),
        a.team_due(slot) == b.team_due(slot),
{
    lemma_news_alike(timed, a, b, a.orchestrator.watermark, AgentId::Orchestrator);
    lemma_news_alike(timed, a, b, slot.watermark, slot.id);
}

/// Two plans are the same, but for clocks and the number of the run.
pub open spec fn same_planned(timed: bool, a: Planned, b: Planned) -> bool {
    alike(timed, a.0, b.0) && a.1 == b.1
}

proof fn lemma_plan_metas_alike(timed: bool, a: Planned, b: Planned, n: int)
    requires
        same_planned(timed, a, b),
    ensures
        same_planned(timed, plan_metas(a, n), plan_metas(b, n)),
    decreases n,
{
    if n > 0 {
        lemma_plan_metas_alike(timed, a, b, n - 1);
    }
}

proof fn lemma_plan_team_alike(timed: bool, a: Planned, b: Planned, n: int)
    requires
        same_planned(timed, a, b),
    ensures
        same_planned(timed, plan_team(a, n), plan_team(b, n)),
    decreases n,
{
    if n > 0 {
        lemma_plan_team_alike(timed, a, b, n - 1);
        let w = plan_team(a, n - 1).0;
        lemma_due_alike(timed, w, plan_team(b, n - 1).0, w.team[n - 1]);
    }
}

proof fn lemma_counts_alike(timed: bool, a: WorldView, b: WorldView, n: int)
    requires
        alike(timed, a, b),
    ensures
        a.open_count(n) == b.open_count(n),
        a.stuck_count(n) == b.stuck_count(n),
    decreases n,
{
    if n > 0 {
        lemma_counts_alike(timed, a, b, n - 1);
    }
}

/// The scheduler plans the same turns in worlds that are alike, and the watchdog does the same.
pub proof fn schedules_repeat(timed: bool, a: WorldView, b: WorldView, io_error: Option<Seq<char>>)
    requires
        alike(timed, a, b),
    ensures
        scheduled(a, io_error).1 == scheduled(b, io_error).1,
        alike(timed, scheduled(a, io_error).0, scheduled(b, io_error).0),
        watched(a).1 == watched(b).1,
        alike(timed, watched(a).0, watched(b).0),
{
    broadcast use lemma_log_alike;

    let checked = |w: WorldView|
        match io_error {
            Some(e) => w.failed("events.jsonl write failed: "@ + e),
            None => w,
        };
    let (c, d) = (checked(a), checked(b));
    assert(alike(timed, c, d));
    let (x, y) = (debt_settled(c), debt_settled(d));
    lemma_due_alike(timed, x, y, arbitrary());
    let (p, q) = (plan_orchestrator(x), plan_orchestrator(y));
    lemma_plan_metas_alike(timed, p, q, c.metas.len() as int);
    let (r, s) = (plan_metas(p, c.metas.len() as int), plan_metas(q, c.metas.len() as int));
    lemma_plan_team_alike(timed, r, s, c.team.len() as int);
    lemma_counts_alike(timed, a, b, a.board.tasks.len() as int);
    lemma_due_alike(timed, a, b, arbitrary());
    assert forall|i: int| 0 <= i < a.team.len() implies a.team_due(#[trigger] a.team[i])
        == b.team_due(b.team[i]) by {
        lemma_due_alike(timed, a, b, a.team[i]);
    }
    assert(a.busy() == b.busy()) by {
        if a.busy() && !a.orchestrator_due() {
            if exists|i: int| 0 <= i < a.metas.len() && meta_due(#[trigger] a.metas[i]) {
                let i = choose|i: int| 0 <= i < a.metas.len() && meta_due(#[trigger] a.metas[i]);
                assert(meta_due(b.metas[i]));
            } else {
                let i = choose|i: int| 0 <= i < a.team.len() && a.team_due(#[trigger] a.team[i]);
                assert(b.team_due(b.team[i]));
            }
        }
        if b.busy() && !b.orchestrator_due() {
            if exists|i: int| 0 <= i < b.metas.len() && meta_due(#[trigger] b.metas[i]) {
                let i = choose|i: int| 0 <= i < b.metas.len() && meta_due(#[trigger] b.metas[i]);
                assert(meta_due(a.metas[i]));
            } else {
                let i = choose|i: int| 0 <= i < b.team.len() && b.team_due(#[trigger] b.team[i]);
                assert(a.team_due(a.team[i]));
            }
        }
    }
}

/// Runs of one configuration start alike, whenever they start, unless times count, and whatever their
/// number.
pub proof fn starts_repeat(
    timed: bool,
    config: RunConfig,
    run: RunId,
    other: RunId,
    now: Timestamp,
    later: Timestamp,
)
    requires
        timed ==> now == later,
    ensures
        alike(
            timed,
            blank_world(config, now).log(EventSource::System, start_event(config, run)),
            blank_world(config, later).log(EventSource::System, start_event(config, other)),
        ),
{
    let (a, b) = (blank_world(config, now), blank_world(config, later));
    let (e, f) = (
        a.event(EventSource::System, start_event(config, run)),
        b.event(EventSource::System, start_event(config, other)),
    );
    lemma_fold_alike(timed, a.metrics, b.metrics, e, f);
}

// ---------------------------------------------------------------------------
// Whole runs.
// ---------------------------------------------------------------------------

/// Something that happens in a run: a step of the runtime, with whatever it is handed from outside.
pub enum Happening {
    /// The clock is read.
    Clock(Timestamp),
    /// The scheduler plans, perhaps after the log could not be written.
    Schedule(Option<Seq<char>>),
    /// The watchdog looks.
    Watch,
    /// A turn begins, with what a search has found.
    Begin { agent: AgentId, role: Role, pool: Option<usize>, hits: Seq<ScoredEntry> },
    /// A turn wants to ask the model.
    Ask { agent: AgentId, role: Role, max: Option<u64> },
    /// A reply arrives.
    Hear { p: TurnProgress, reply: Result<Completion, LlmError> },
    /// A call is carried out.
    Call {
        tools: Seq<ToolView>,
        p: TurnProgress,
        call: CallView,
        decoded: Result<VerbArgs, String>,
        replies: Replies,
    },
    /// A turn ends.
    End {
        p: TurnProgress,
        outcome: TurnOutcome,
        max_ticks: Option<u64>,
        io_error: Option<Seq<char>>,
    },
    /// A permit comes back.
    Permit,
    /// The time limit has passed.
    Elapsed(u64),
}

/// What a step shows outside.
pub enum Showing {
    /// Nothing.
    Nothing,
    /// The turns to run, or that there is nothing more to do.
    Plans(Option<Seq<TurnPlan>>),
    /// What the watchdog does.
    Watch(WatchStep),
    /// A prompt, and which turn and call of the agent it is for.
    Prompt {
        specialty: Option<ProfileView>,
        sections: Seq<Option<SectionView>>,
        turn: u64,
        call: u64,
    },
    /// Whether the model may be asked, and the identity to ask under.
    Identity { granted: bool, channel: ChannelView },
    /// The outcome of a call.
    Outcome(OutcomeView),
}

/// The world after something has happened.
pub open spec fn happen(w: WorldView, h: Happening) -> WorldView {
    match h {
        Happening::Clock(now) => WorldView { now, ..w },
        Happening::Schedule(io_error) => scheduled(w, io_error).0,
        Happening::Watch => watched(w).0,
        Happening::Begin { agent, role, pool, hits } => begun(w, agent, role, pool, hits),
        Happening::Ask { agent, role, max } => asked(w, agent, role, max).0,
        Happening::Hear { p, reply } => heard(w, p, reply),
        Happening::Call { tools, p, call, decoded, replies } => {
            let (after, outcome) = call_step(w, tools, p.role, p.agent, call.name, decoded, replies);
            remembered(after, p.agent, p.role, call_line(p.turn_index, call, outcome))
        },
        Happening::End { p, outcome, max_ticks, io_error } => ended(
            w,
            p,
            outcome,
            max_ticks,
            io_error,
        ),
        Happening::Permit => WorldView { permits: (w.permits + 1) as usize, ..w },
        Happening::Elapsed(ms) => w.capped(CapKind::MaxDuration, ms / 1000, ms / 1000),
    }
}

/// What a step shows outside.
pub open spec fn showing(w: WorldView, h: Happening) -> Showing {
    match h {
        Happening::Schedule(io_error) => Showing::Plans(scheduled(w, io_error).1),
        Happening::Watch => Showing::Watch(watched(w).1),
        Happening::Begin { agent, role, pool, hits } => Showing::Prompt {
            specialty: specialty_of(w, agent),
            sections: prompt_sections(w, agent, role, pool, hits),
            turn: turns_begun(w, agent, role),
            call: next_call(w, agent, role),
        },
        Happening::Ask { agent, role, max } => Showing::Identity {
            granted: asked(w, agent, role, max).1,
            channel: channel_of(w, agent, role),
        },
        Happening::Call { tools, p, call, decoded, replies } => Showing::Outcome(
            call_step(w, tools, p.role, p.agent, call.name, decoded, replies).1,
        ),
        _ => Showing::Nothing,
    }
}

/// The world after the first `n` of the things that happen.
pub open spec fn after(start: WorldView, hs: Seq<Happening>, n: int) -> WorldView
    decreases n,
{
    if n <= 0 {
        start
    } else {
        happen(after(start, hs, n - 1), hs[n - 1])
    }
}

/// The same happens, but, unless times count, for what clocks show.
pub open spec fn same_happening(timed: bool, h: Happening, g: Happening) -> bool {
    h == g || (!timed && h is Clock && g is Clock)
}

proof fn lemma_happen_alike(timed: bool, a: WorldView, b: WorldView, h: Happening, g: Happening)
    requires
        alike(timed, a, b),
        same_happening(timed, h, g),
    ensures
        alike(timed, happen(a, h), happen(b, g)),
        showing(a, h) == showing(b, g),
{
    match h {
        Happening::Clock(_) => {},
        Happening::Schedule(io_error) => schedules_repeat(timed, a, b, io_error),
        Happening::Watch => schedules_repeat(timed, a, b, None),
        Happening::Begin { agent, role, pool, hits } => beginnings_repeat(
            timed,
            a,
            b,
            agent,
            role,
            pool,
            hits,
        ),
        Happening::Ask { agent, role, max } => lemma_asked_alike(timed, a, b, agent, role, max),
        Happening::Hear { p, reply } => lemma_heard_alike(timed, a, b, p, reply),
        Happening::Call { tools, p, call, decoded, replies } => {
            calls_repeat(timed, a, b, tools, p.role, p.agent, call.name, decoded, replies);
        },
        Happening::End { p, outcome, max_ticks, io_error } => lemma_ended_alike(
            timed,
            a,
            b,
            p,
            outcome,
            max_ticks,
            io_error,
        ),
        Happening::Permit => {},
        Happening::Elapsed(ms) => lemma_capped_alike(
            timed,
            a,
            b,
            CapKind::MaxDuration,
            ms / 1000,
            ms / 1000,
        ),
    }
}

/// A run can be repeated: runs of one configuration to which the same happens, at whatever times and
/// under whatever number, stay alike and show the same at every step. In particular they plan the
/// same turns, make the same prompts, ask under the same identities and answer calls alike.
pub proof fn runs_repeat(
    timed: bool,
    config: RunConfig,
    run: RunId,
    other: RunId,
    now: Timestamp,
    later: Timestamp,
    hs: Seq<Happening>,
    gs: Seq<Happening>,
    n: int,
)
    requires
        timed ==> now == later,
        hs.len() == gs.len(),
        0 <= n <= hs.len(),
        forall|i: int| 0 <= i < hs.len() ==> same_happening(timed, #[trigger] hs[i], #[trigger] gs[i]),
    ensures
        ({
            let a = blank_world(config, now).log(EventSource::System, start_event(config, run));
            let b = blank_world(config, later).log(EventSource::System, start_event(config, other));
            &&& alike(timed, after(a, hs, n), after(b, gs, n))
            &&& n < hs.len() ==> showing(after(a, hs, n), hs[n]) == showing(after(b, gs, n), gs[n])
        }),
    decreases n,
{
    let a = blank_world(config, now).log(EventSource::System, start_event(config, run));
    let b = blank_world(config, later).log(EventSource::System, start_event(config, other));
    if n == 0 {
        starts_repeat(timed, config, run, other, now, later);
    } else {
        runs_repeat(timed, config, run, other, now, later, hs, gs, n - 1);
        lemma_happen_alike(timed, after(a, hs, n - 1), after(b, gs, n - 1), hs[n - 1], gs[n - 1]);
    }
    if n < hs.len() {
        lemma_happen_alike(timed, after(a, hs, n), after(b, gs, n), hs[n], gs[n]);
    }
}

} // verus!
