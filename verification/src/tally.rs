//! The counters that metrics keep are those of what a run holds.
use crate::agent::{AgentId, Role};
use crate::board::{lemma_searches, missing_from, place, StateView, TaskView};
use crate::context::{degraded_in, drained_in, role_sections, CharCountTokenizer, ProfileView};
use crate::directive::{DirectiveKind, DirectiveView, ResolutionView};
use crate::dispatch::{call_bytes, call_step, Replies};
use crate::event::{
    text_view, CapKind, DegradedView, EventSource, EventView, KindView, RunFinishReason, Timestamp,
    TurnOutcome,
};
use crate::exchange::{asked, heard, Completion};
use crate::ids::{DirectiveId, EventId, KnowledgeEntryId, RunId, TaskId};
use crate::knowledge::{entry_bytes, KnowledgeKind, ScoredEntry};
use crate::llm::LlmError;
use crate::metrics::{event_bytes, event_tokens, fold_log, Counts, MetricsView, RunSummary};
use crate::run::{blank_world, start_event, RunConfig};
use crate::schedule::{
    debt_settled, plan_metas, plan_orchestrator, plan_team, scheduled, watched, Planned,
};
use crate::text::{byte_len, texts};
use crate::tools::{ToolView, VerbArgs};
use crate::turn::{
    begun, concluded, degraded, delivered, ended, prompt_sections, settled, ticked, turn_event,
    turn_over, weighed, TurnProgress,
};
use crate::verbs::{
    cancel_step, citation, claim_step, complete_step, create_step, decline_step, directive_at,
    dissolve_step, fault, form_step, fulfilled, learned, members_step, meta_sleep_step,
    meta_wake_step, parallel_step, pool_agent, pool_agents, post_step, profile_of, propose_step,
    release_step, relieved, respecialize_step, respecialized, self_sleep_step, sleep_step,
    unassign_step, wake_step, write_step,
};
use crate::world::{slot_at, WorldView};
use vstd::prelude::*;

verus! {

// ---------------------------------------------------------------------------
// What is counted.
// ---------------------------------------------------------------------------

/// How many tasks are done.
pub open spec fn done_count(tasks: Seq<TaskView>) -> nat
    decreases tasks.len(),
{
    if tasks.len() == 0 {
        0
    } else if tasks.last().state is Done {
        done_count(tasks.drop_last()) + 1
    } else {
        done_count(tasks.drop_last())
    }
}

/// How many tasks are cancelled.
pub open spec fn cancelled_count(tasks: Seq<TaskView>) -> nat
    decreases tasks.len(),
{
    if tasks.len() == 0 {
        0
    } else if tasks.last().state is Cancelled {
        cancelled_count(tasks.drop_last()) + 1
    } else {
        cancelled_count(tasks.drop_last())
    }
}

/// How many directives are fulfilled.
pub open spec fn fulfilled_count(directives: Seq<DirectiveView>) -> nat
    decreases directives.len(),
{
    if directives.len() == 0 {
        0
    } else if directives.last().state is Fulfilled {
        fulfilled_count(directives.drop_last()) + 1
    } else {
        fulfilled_count(directives.drop_last())
    }
}

/// How many directives are declined.
pub open spec fn declined_count(directives: Seq<DirectiveView>) -> nat
    decreases directives.len(),
{
    if directives.len() == 0 {
        0
    } else if directives.last().state is Declined {
        declined_count(directives.drop_last()) + 1
    } else {
        declined_count(directives.drop_last())
    }
}

/// The counters agree with the world: its ticks, tasks, messages, knowledge and directives.
pub open spec fn tallied(w: WorldView) -> bool {
    let c = w.metrics.counts;
    &&& c.ticks == w.ticks
    &&& c.tasks_created == w.board.tasks.len()
    &&& c.tasks_completed == done_count(w.board.tasks)
    &&& c.tasks_cancelled == cancelled_count(w.board.tasks)
    &&& c.messages_total == w.messages.len()
    &&& c.knowledge_messages + c.knowledge_notes + c.knowledge_completions == w.store.len()
    &&& c.knowledge_bytes == entry_bytes(w.store)
    &&& c.directives_issued == w.directives.len()
    &&& c.directives_fulfilled == fulfilled_count(w.directives)
    &&& c.directives_declined == declined_count(w.directives)
}

/// A number, one more where a condition holds.
pub open spec fn bumped(n: u64, b: bool) -> int {
    if b {
        n + 1
    } else {
        n as int
    }
}

/// The counters after an event.
pub open spec fn follows(c: Counts, d: Counts, source: EventSource, kind: KindView) -> bool {
    &&& d.ticks == bumped(
        c.ticks,
        kind is TurnCompleted && source == EventSource::Agent(AgentId::Orchestrator),
    )
    &&& d.tasks_created == bumped(c.tasks_created, kind is TaskCreated)
    &&& d.tasks_completed == bumped(c.tasks_completed, kind is TaskCompleted)
    &&& d.tasks_cancelled == bumped(c.tasks_cancelled, kind is TaskCancelled)
    &&& d.messages_total == bumped(c.messages_total, kind is MessageSent)
    &&& d.knowledge_messages == bumped(c.knowledge_messages, kind is MessageSent)
    &&& d.knowledge_notes == bumped(c.knowledge_notes, kind is KnowledgeWritten)
    &&& d.knowledge_completions == bumped(c.knowledge_completions, kind is TaskCompleted)
    &&& d.knowledge_bytes == c.knowledge_bytes + event_bytes(kind)
    &&& d.directives_issued == bumped(c.directives_issued, kind is DirectiveIssued)
    &&& d.directives_fulfilled == bumped(
        c.directives_fulfilled,
        kind is DirectiveFulfilled || (kind matches KindView::DirectiveIssued { tier, .. }
            && tier is Mechanical),
    )
    &&& d.directives_declined == bumped(c.directives_declined, kind is DirectiveDeclined)
}

/// The counters can take `k` more events with `bytes` more bytes of knowledge.
pub open spec fn spare(c: Counts, k: nat, bytes: nat) -> bool {
    &&& c.ticks + k <= u64::MAX
    &&& c.tasks_created + k <= u64::MAX
    &&& c.tasks_completed + k <= u64::MAX
    &&& c.tasks_cancelled + k <= u64::MAX
    &&& c.messages_total + k <= u64::MAX
    &&& c.knowledge_messages + c.knowledge_notes + c.knowledge_completions + k <= u64::MAX
    &&& c.knowledge_bytes + bytes <= u64::MAX
    &&& c.directives_issued + k <= u64::MAX
    &&& c.directives_fulfilled + k <= u64::MAX
    &&& c.directives_declined + k <= u64::MAX
}

/// Logging moves the counters as the event says.
broadcast proof fn lemma_log_counts(w: WorldView, source: EventSource, kind: KindView)
    requires
        spare(w.metrics.counts, 1, event_bytes(kind)),
    ensures
        follows(w.metrics.counts, (#[trigger] w.log(source, kind)).metrics.counts, source, kind),
{
    reveal(MetricsView::folded);
}

// ---------------------------------------------------------------------------
// Changes.
// ---------------------------------------------------------------------------

proof fn lemma_task_update(tasks: Seq<TaskView>, i: int, t: TaskView)
    requires
        0 <= i < tasks.len(),
    ensures
        done_count(tasks.update(i, t)) + (if tasks[i].state is Done {
            1int
        } else {
            0
        }) == done_count(tasks) + (if t.state is Done {
            1int
        } else {
            0
        }),
        cancelled_count(tasks.update(i, t)) + (if tasks[i].state is Cancelled {
            1int
        } else {
            0
        }) == cancelled_count(tasks) + (if t.state is Cancelled {
            1int
        } else {
            0
        }),
    decreases tasks.len(),
{
    let changed = tasks.update(i, t);
    if i < tasks.len() - 1 {
        assert(changed.drop_last() =~= tasks.drop_last().update(i, t));
        lemma_task_update(tasks.drop_last(), i, t);
    } else {
        assert(changed.drop_last() =~= tasks.drop_last());
    }
}

proof fn lemma_task_insert(tasks: Seq<TaskView>, i: int, t: TaskView)
    requires
        0 <= i <= tasks.len(),
        t.state is Open,
    ensures
        done_count(tasks.insert(i, t)) == done_count(tasks),
        cancelled_count(tasks.insert(i, t)) == cancelled_count(tasks),
    decreases tasks.len(),
{
    let changed = tasks.insert(i, t);
    if i < tasks.len() {
        assert(changed.drop_last() =~= tasks.drop_last().insert(i, t));
        assert(changed.last() == tasks.last());
        lemma_task_insert(tasks.drop_last(), i, t);
    } else {
        assert(changed.drop_last() =~= tasks);
    }
}

proof fn lemma_directive_update(ds: Seq<DirectiveView>, i: int, d: DirectiveView)
    requires
        0 <= i < ds.len(),
    ensures
        fulfilled_count(ds.update(i, d)) + (if ds[i].state is Fulfilled {
            1int
        } else {
            0
        }) == fulfilled_count(ds) + (if d.state is Fulfilled {
            1int
        } else {
            0
        }),
        declined_count(ds.update(i, d)) + (if ds[i].state is Declined {
            1int
        } else {
            0
        }) == declined_count(ds) + (if d.state is Declined {
            1int
        } else {
            0
        }),
    decreases ds.len(),
{
    let changed = ds.update(i, d);
    if i < ds.len() - 1 {
        assert(changed.drop_last() =~= ds.drop_last().update(i, d));
        lemma_directive_update(ds.drop_last(), i, d);
    } else {
        assert(changed.drop_last() =~= ds.drop_last());
    }
}

proof fn lemma_directive_at(ds: Seq<DirectiveView>, id: DirectiveId, i: int)
    requires
        i >= 0,
    ensures
        match directive_at(ds, id, i) {
            Some(k) => i <= k < ds.len() && ds[k].id == id,
            None => true,
        },
    decreases ds.len() - i,
{
    if i < ds.len() {
        lemma_directive_at(ds, id, i + 1);
    }
}

/// A cited directive that is acted on is counted once.
proof fn lemma_cited(w: WorldView, v: WorldView, n: Option<u64>, by: AgentId)
    requires
        citation(w, n) is Ok,
        v.directives == w.directives,
        tallied(v),
        spare(v.metrics.counts, 1, 0),
    ensures
        tallied(fulfilled(v, citation(w, n)->Ok_0, by)),
{
    broadcast use lemma_log_counts;

    if let Some(id) = citation(w, n)->Ok_0 {
        lemma_directive_at(w.directives, id, 0);
        let i = directive_at(w.directives, id, 0)->0;
        let state = ResolutionView::Fulfilled { by };
        lemma_directive_update(v.directives, i, DirectiveView { state, ..v.directives[i] });
    }
}

proof fn lemma_claim_tallied(w: WorldView, c: AgentId, id: TaskId)
    requires
        tallied(w),
        spare(w.metrics.counts, 2, 0),
    ensures
        tallied(claim_step(w, c, id).0),
{
    broadcast use lemma_log_counts;

    lemma_searches(w.board, id, c, Seq::empty(), 0);
    if w.board.claim_refusal(c, id) is None {
        let i = w.board.at(id)->0;
        let state = StateView::Claimed { by: c };
        lemma_task_update(w.board.tasks, i, w.board.tasks[i].in_state(state));
    }
}

proof fn lemma_complete_tallied(w: WorldView, c: AgentId, x: Seq<char>, f: Option<Seq<char>>)
    requires
        tallied(w),
        spare(w.metrics.counts, 2, byte_len(x)),
    ensures
        tallied(complete_step(w, c, x, f).0),
{
    broadcast use lemma_log_counts;

    lemma_searches(w.board, TaskId(0), c, Seq::empty(), 0);
    if let Some(i) = w.board.claim_of(c) {
        let entry = KnowledgeEntryId((w.store.len() + 1) as u64);
        let state = StateView::Done { result: x, result_ref: entry };
        lemma_task_update(w.board.tasks, i, w.board.tasks[i].in_state(state));
        let known = learned(w, x, c, KnowledgeKind::TaskCompletion);
        assert(known.store.drop_last() =~= w.store);
    }
}

proof fn lemma_release_tallied(w: WorldView, c: AgentId, r: Option<Seq<char>>)
    requires
        tallied(w),
        spare(w.metrics.counts, 2, 0),
    ensures
        tallied(release_step(w, c, r).0),
{
    broadcast use lemma_log_counts;

    lemma_searches(w.board, TaskId(0), c, Seq::empty(), 0);
    if let Some(i) = w.board.claim_of(c) {
        lemma_task_update(w.board.tasks, i, w.board.tasks[i].in_state(StateView::Open));
    }
}

proof fn lemma_post_tallied(
    w: WorldView,
    c: AgentId,
    to: Option<Seq<char>>,
    team: Option<Seq<char>>,
    all: Option<bool>,
    x: Seq<char>,
    f: Option<Seq<char>>,
)
    requires
        tallied(w),
        spare(w.metrics.counts, 2, byte_len(x)),
    ensures
        tallied(post_step(w, c, to, team, all, x, f).0),
{
    broadcast use lemma_log_counts;

    let next = post_step(w, c, to, team, all, x, f).0.store;
    if next.len() > w.store.len() {
        assert(next.drop_last() =~= w.store);
    }
}

proof fn lemma_write_tallied(w: WorldView, c: AgentId, x: Seq<char>, f: Option<Seq<char>>)
    requires
        tallied(w),
        spare(w.metrics.counts, 2, byte_len(x)),
    ensures
        tallied(write_step(w, c, x, f).0),
{
    broadcast use lemma_log_counts;

    let next = write_step(w, c, x, f).0.store;
    if next.len() > w.store.len() {
        assert(next.drop_last() =~= w.store);
    }
}

proof fn lemma_self_sleep_tallied(w: WorldView, c: AgentId)
    requires
        tallied(w),
        spare(w.metrics.counts, 2, 0),
    ensures
        tallied(self_sleep_step(w, c).0),
{
    broadcast use lemma_log_counts;

}

proof fn lemma_create_tallied(
    w: WorldView,
    c: AgentId,
    t: Seq<char>,
    x: Seq<char>,
    g: Option<Seq<char>>,
)
    requires
        tallied(w),
        spare(w.metrics.counts, 2, 0),
    ensures
        tallied(create_step(w, c, t, x, g).0),
{
    broadcast use lemma_log_counts;

    let id = TaskId(w.next_task);
    lemma_searches(w.board, id, c, Seq::empty(), 0);
    lemma_task_insert(
        w.board.tasks,
        place(w.board.tasks, id, 0),
        TaskView {
            id,
            title: t,
            description: x,
            created_by: c,
            origin_event: EventId(w.next_event),
            team: g,
            state: StateView::Open,
        },
    );
}

proof fn lemma_cancel_tallied(w: WorldView, c: AgentId, id: TaskId, r: Seq<char>)
    requires
        tallied(w),
        spare(w.metrics.counts, 2, 0),
    ensures
        tallied(cancel_step(w, c, id, r).0),
{
    broadcast use lemma_log_counts;

    lemma_searches(w.board, id, c, Seq::empty(), 0);
    if w.board.cancel_refusal(id) is None {
        let i = w.board.at(id)->0;
        let state = StateView::Cancelled { reason: r };
        lemma_task_update(w.board.tasks, i, w.board.tasks[i].in_state(state));
    }
}

proof fn lemma_unassign_tallied(
    w: WorldView,
    c: AgentId,
    id: TaskId,
    r: Option<Seq<char>>,
    n: Option<u64>,
)
    requires
        tallied(w),
        spare(w.metrics.counts, 2, 0),
    ensures
        tallied(unassign_step(w, c, id, r, n).0),
{
    broadcast use lemma_log_counts;

    lemma_searches(w.board, id, c, Seq::empty(), 0);
    if citation(w, n) is Ok && w.board.unassign_refusal(id) is None {
        let i = w.board.at(id)->0;
        lemma_task_update(w.board.tasks, i, w.board.tasks[i].in_state(StateView::Open));
        let prev = w.board.tasks[i].state->Claimed_by;
        let v = relieved(WorldView { board: w.board.unassigned(id), ..w }, prev, id).log(
            EventSource::Agent(c),
            KindView::TaskUnassigned {
                task: id,
                prev_claimant: prev,
                reason: r,
                via_directive: citation(w, n)->Ok_0,
            },
        );
        lemma_cited(w, v, n, c);
    }
}

proof fn lemma_form_tallied(w: WorldView, c: AgentId, t: Seq<char>, m: Seq<Seq<char>>)
    requires
        tallied(w),
        spare(w.metrics.counts, 2, 0),
    ensures
        tallied(form_step(w, c, t, m).0),
{
    broadcast use lemma_log_counts;

}

proof fn lemma_dissolve_tallied(w: WorldView, c: AgentId, t: Seq<char>)
    requires
        tallied(w),
        spare(w.metrics.counts, 2, 0),
    ensures
        tallied(dissolve_step(w, c, t).0),
{
    broadcast use lemma_log_counts;

}

proof fn lemma_members_tallied(
    w: WorldView,
    c: AgentId,
    t: Seq<char>,
    m: Seq<Seq<char>>,
    n: Option<u64>,
)
    requires
        tallied(w),
        spare(w.metrics.counts, 2, 0),
    ensures
        tallied(members_step(w, c, t, m, n).0),
{
    broadcast use lemma_log_counts;

    if citation(w, n) is Ok && pool_agents(w, m) is Ok && w.board.members_refusal(t) is None {
        let members = pool_agents(w, m)->Ok_0;
        let former = w.board.teams[w.board.team_of(t)->0].members;
        let v = WorldView { board: w.board.reteamed(t, members), ..w }.log(
            EventSource::Agent(c),
            KindView::TeamMembersSet {
                team: t,
                members,
                added: missing_from(members, former),
                removed: missing_from(former, members),
                via_directive: citation(w, n)->Ok_0,
            },
        );
        lemma_cited(w, v, n, c);
    }
}

proof fn lemma_respecialize_tallied(
    w: WorldView,
    c: AgentId,
    h: Seq<char>,
    p: ProfileView,
    n: Option<u64>,
)
    requires
        tallied(w),
        spare(w.metrics.counts, 2, 0),
    ensures
        tallied(respecialize_step(w, c, h, p, n).0),
{
    broadcast use lemma_log_counts;

    if citation(w, n) is Ok && pool_agent(w, h) is Ok {
        let agent = pool_agent(w, h)->Ok_0;
        let i = slot_at(w.team, agent, 0)->0;
        let v = respecialized(w, i, p).log(
            EventSource::Agent(c),
            KindView::AgentRespecialized {
                agent,
                from: w.team[i].profile.slug,
                to: p.slug,
                via_directive: citation(w, n)->Ok_0,
            },
        );
        lemma_cited(w, v, n, c);
    }
}

proof fn lemma_meta_sleep_tallied(w: WorldView, c: AgentId, h: Seq<char>)
    requires
        tallied(w),
        spare(w.metrics.counts, 2, 0),
    ensures
        tallied(meta_sleep_step(w, c, h).0),
{
    broadcast use lemma_log_counts;

    let next = meta_sleep_step(w, c, h).0.directives;
    if next.len() > w.directives.len() {
        assert(next.drop_last() =~= w.directives);
    }
}

proof fn lemma_sleep_tallied(w: WorldView, c: AgentId, h: Seq<char>)
    requires
        tallied(w),
        spare(w.metrics.counts, 2, 0),
    ensures
        tallied(sleep_step(w, c, h).0),
{
    broadcast use lemma_log_counts;

}

proof fn lemma_meta_wake_tallied(w: WorldView, c: AgentId, h: Seq<char>)
    requires
        tallied(w),
        spare(w.metrics.counts, 2, 0),
    ensures
        tallied(meta_wake_step(w, c, h).0),
{
    broadcast use lemma_log_counts;

    let next = meta_wake_step(w, c, h).0.directives;
    if next.len() > w.directives.len() {
        assert(next.drop_last() =~= w.directives);
    }
}

proof fn lemma_wake_tallied(w: WorldView, c: AgentId, h: Seq<char>)
    requires
        tallied(w),
        spare(w.metrics.counts, 2, 0),
    ensures
        tallied(wake_step(w, c, h).0),
{
    broadcast use lemma_log_counts;

}

proof fn lemma_decline_tallied(w: WorldView, c: AgentId, id: DirectiveId, r: Seq<char>)
    requires
        tallied(w),
        spare(w.metrics.counts, 2, 0),
    ensures
        tallied(decline_step(w, c, id, r).0),
{
    broadcast use lemma_log_counts;

    lemma_directive_at(w.directives, id, 0);
    if let Some(i) = directive_at(w.directives, id, 0) {
        let state = ResolutionView::Declined { by: c, reason: r };
        lemma_directive_update(w.directives, i, DirectiveView { state, ..w.directives[i] });
    }
}

proof fn lemma_parallel_tallied(w: WorldView, c: AgentId, n: u32)
    requires
        tallied(w),
        spare(w.metrics.counts, 2, 0),
    ensures
        tallied(parallel_step(w, c, n).0),
{
    broadcast use lemma_log_counts;

    let next = parallel_step(w, c, n).0.directives;
    if next.len() > w.directives.len() {
        assert(next.drop_last() =~= w.directives);
    }
}

proof fn lemma_propose_tallied(w: WorldView, c: AgentId, k: DirectiveKind, raw: Seq<char>)
    requires
        tallied(w),
        spare(w.metrics.counts, 2, 0),
    ensures
        tallied(propose_step(w, c, k, raw).0),
{
    broadcast use lemma_log_counts;

    let next = propose_step(w, c, k, raw).0.directives;
    if next.len() > w.directives.len() {
        assert(next.drop_last() =~= w.directives);
    }
}

// ---------------------------------------------------------------------------
// Laws.
// ---------------------------------------------------------------------------

/// A run starts with counters that agree with its world.
pub proof fn starts_are_tallied(config: RunConfig, run: RunId, now: Timestamp)
    ensures
        tallied(blank_world(config, now).log(EventSource::System, start_event(config, run))),
{
    broadcast use lemma_log_counts;

    assert(spare(blank_world(config, now).metrics.counts, 1, 0));
}

/// A call keeps the counters in agreement with the world: they count the tasks that were created,
/// are done or are cancelled, the messages, the knowledge and its bytes, and the directives that were
/// issued, are fulfilled or are declined.
pub proof fn calls_stay_tallied(
    w: WorldView,
    tools: Seq<ToolView>,
    role: Role,
    caller: AgentId,
    name: Seq<char>,
    decoded: Result<VerbArgs, String>,
    replies: Replies,
)
    requires
        tallied(w),
        w.room(2, call_bytes(decoded), 0),
    ensures
        tallied(call_step(w, tools, role, caller, name, decoded, replies).0),
{
    let f = fault(replies.embedded);
    if let Ok(args) = decoded {
        match args {
            VerbArgs::ClaimTask(x) => lemma_claim_tallied(w, caller, TaskId(x.task)),
            VerbArgs::CompleteTask(x) => lemma_complete_tallied(w, caller, x.result@, f),
            VerbArgs::ReleaseTask(x) => lemma_release_tallied(w, caller, text_view(x.reason)),
            VerbArgs::PostMessage(x) => lemma_post_tallied(
                w,
                caller,
                text_view(x.to),
                text_view(x.team),
                x.broadcast,
                x.body@,
                f,
            ),
            VerbArgs::WriteKnowledge(x) => lemma_write_tallied(w, caller, x.text@, f),
            VerbArgs::SearchKnowledge(_) => {},
            VerbArgs::Sleep(_) => lemma_self_sleep_tallied(w, caller),
            VerbArgs::CreateTask(x) => lemma_create_tallied(
                w,
                caller,
                x.title@,
                x.description@,
                text_view(x.team),
            ),
            VerbArgs::CancelTask(x) => lemma_cancel_tallied(w, caller, TaskId(x.task), x.reason@),
            VerbArgs::UnassignTask(x) => lemma_unassign_tallied(
                w,
                caller,
                TaskId(x.task),
                text_view(x.reason),
                x.in_response_to,
            ),
            VerbArgs::FormTeam(x) => lemma_form_tallied(w, caller, x.team@, texts(x.members@)),
            VerbArgs::DissolveTeam(x) => lemma_dissolve_tallied(w, caller, x.team@),
            VerbArgs::SetTeamMembers(x) => lemma_members_tallied(
                w,
                caller,
                x.team@,
                texts(x.members@),
                x.in_response_to,
            ),
            VerbArgs::Respecialize(x) => lemma_respecialize_tallied(
                w,
                caller,
                x.agent@,
                profile_of(x),
                x.in_response_to,
            ),
            VerbArgs::SleepAgent(x) => {
                lemma_meta_sleep_tallied(w, caller, x.agent@);
                lemma_sleep_tallied(w, caller, x.agent@);
            },
            VerbArgs::WakeAgent(x) => {
                lemma_meta_wake_tallied(w, caller, x.agent@);
                lemma_wake_tallied(w, caller, x.agent@);
            },
            VerbArgs::DeclineDirective(x) => lemma_decline_tallied(
                w,
                caller,
                DirectiveId(x.directive),
                x.reason@,
            ),
            VerbArgs::FinishRun(_) => {},
            VerbArgs::SetParallelism(x) => lemma_parallel_tallied(w, caller, x.target),
            VerbArgs::Propose(kind, raw) => lemma_propose_tallied(w, caller, kind, raw@),
        }
    }
}

/// The beginning of a turn and an exchange with the model leave the counters in agreement with the
/// world.
pub proof fn exchanges_stay_tallied(
    w: WorldView,
    p: TurnProgress,
    pool: Option<usize>,
    hits: Seq<ScoredEntry>,
    max: Option<u64>,
    reply: Result<Completion, LlmError>,
)
    requires
        tallied(w),
        w.log_room(2, 0, 0),
    ensures
        tallied(begun(w, p.agent, p.role, pool, hits)),
        tallied(asked(w, p.agent, p.role, max).0),
        tallied(heard(w, p, reply)),
{
    lemma_over_tallied(w, p.agent, p.role);
    lemma_begun_tallied(w, p.agent, p.role, pool, hits);
    if let Some(m) = max {
        lemma_capped_tallied(w, CapKind::MaxLlmCalls, m, w.llm_calls, 0);
        lemma_over_tallied(w.capped(CapKind::MaxLlmCalls, m, w.llm_calls), p.agent, p.role);
    }
    let message = match reply {
        Err(e) => "llm completion failed for "@ + p.agent.handle() + ": "@ + e.text(),
        Ok(_) => "llm returned no choices for "@ + p.agent.handle(),
    };
    lemma_failed_tallied(w, message, 0);
    lemma_over_tallied(w.failed(message), p.agent, p.role);
}

proof fn lemma_over_tallied(w: WorldView, agent: AgentId, role: Role)
    requires
        tallied(w),
    ensures
        tallied(turn_over(w, agent, role)),
{
}

proof fn lemma_capped_tallied(w: WorldView, cap: CapKind, limit: u64, seen: u64, k: nat)
    requires
        tallied(w),
        spare(w.metrics.counts, k + 2, 0),
    ensures
        tallied(w.capped(cap, limit, seen)),
        spare(w.capped(cap, limit, seen).metrics.counts, k, 0),
{
    broadcast use lemma_log_counts;

}

proof fn lemma_failed_tallied(w: WorldView, message: Seq<char>, k: nat)
    requires
        tallied(w),
        spare(w.metrics.counts, k + 1, 0),
    ensures
        tallied(w.failed(message)),
        spare(w.failed(message).metrics.counts, k, 0),
{
    broadcast use lemma_log_counts;

}

proof fn lemma_delivered_tallied(w: WorldView, agent: AgentId, n: nat)
    requires
        tallied(w),
        spare(w.metrics.counts, 2, 0),
    ensures
        tallied(delivered(w, agent, n)),
        spare(delivered(w, agent, n).metrics.counts, 1, 0),
{
    broadcast use lemma_log_counts;

}

proof fn lemma_degraded_tallied(w: WorldView, agent: AgentId, sections: Seq<DegradedView>)
    requires
        tallied(w),
        spare(w.metrics.counts, 1, 0),
    ensures
        tallied(degraded(w, agent, sections)),
{
    broadcast use lemma_log_counts;

}

proof fn lemma_begun_tallied(
    w: WorldView,
    agent: AgentId,
    role: Role,
    pool: Option<usize>,
    hits: Seq<ScoredEntry>,
)
    requires
        tallied(w),
        spare(w.metrics.counts, 2, 0),
    ensures
        tallied(begun(w, agent, role, pool, hits)),
{
    let sections = prompt_sections(w, agent, role, pool, hits);
    let n = drained_in(sections);
    let lost = degraded_in(&CharCountTokenizer, role_sections(role), sections);
    lemma_delivered_tallied(w, agent, n);
    lemma_degraded_tallied(delivered(w, agent, n), agent, lost);
    lemma_over_tallied(degraded(delivered(w, agent, n), agent, lost), agent, role);
    lemma_over_tallied(w, agent, role);
}

proof fn lemma_weighed_tallied(w: WorldView, p: TurnProgress)
    requires
        tallied(w),
        spare(w.metrics.counts, 3, 0),
    ensures
        tallied(weighed(w, p)),
        spare(weighed(w, p).metrics.counts, 2, 0),
{
    broadcast use lemma_log_counts;

}

proof fn lemma_concluded_tallied(w: WorldView, p: TurnProgress)
    requires
        tallied(w),
        spare(w.metrics.counts, 1, 0),
    ensures
        tallied(concluded(w, p)),
        w.finishing is None && spare(w.metrics.counts, 2, 0) ==> spare(
            concluded(w, p).metrics.counts,
            1,
            0,
        ),
        w.finishing is Some ==> concluded(w, p) == w,
{
    broadcast use lemma_log_counts;

}

/// A turn that is logged and counted, or was capped for it.
proof fn lemma_settled_tallied(
    w: WorldView,
    p: TurnProgress,
    outcome: TurnOutcome,
    max_ticks: Option<u64>,
)
    requires
        tallied(w),
        spare(w.metrics.counts, 4, 0),
        w.finishing is None,
        p.agent.spec_role() == p.role,
    ensures
        tallied(settled(w, p, outcome, max_ticks)),
        settled(w, p, outcome, max_ticks).finishing is None ==> spare(
            settled(w, p, outcome, max_ticks).metrics.counts,
            1,
            0,
        ),
{
    let source = EventSource::Agent(p.agent);
    let kind = turn_event(p, outcome);
    let logged = w.log(source, kind);
    lemma_log_counts(w, source, kind);
    assert(spare(logged.metrics.counts, 3, 0));
    match p.role {
        Role::Orchestrator => {
            let ticks = (w.ticks + 1) as u64;
            let ticking = WorldView { ticks, ..logged };
            assert(tallied(ticking));
            if let Some(m) = max_ticks {
                lemma_capped_tallied(ticking, CapKind::MaxTicks, m, ticks, 1);
            }
            lemma_concluded_tallied(ticked(logged, max_ticks), p);
        },
        Role::TeamAgent => {
            lemma_weighed_tallied(logged, p);
            lemma_concluded_tallied(weighed(logged, p), p);
        },
        Role::MetaAgent => {
            lemma_concluded_tallied(logged, p);
        },
    }
}

/// A tick is a logged turn of the orchestrator: the end of a turn counts it in both places or in
/// neither.
pub proof fn endings_stay_tallied(
    w: WorldView,
    p: TurnProgress,
    outcome: TurnOutcome,
    max_ticks: Option<u64>,
    io_error: Option<Seq<char>>,
)
    requires
        tallied(w),
        w.log_room(4, 0, p.usage.total as nat),
        p.agent.spec_role() == p.role,
    ensures
        tallied(ended(w, p, outcome, max_ticks, io_error)),
{
    let done = settled(w, p, outcome, max_ticks);
    if w.finishing is None {
        lemma_settled_tallied(w, p, outcome, max_ticks);
    }
    if let Some(e) = io_error {
        let message = "events.jsonl write failed: "@ + e;
        if done.finishing is None {
            lemma_failed_tallied(done, message, 0);
        }
        lemma_over_tallied(done.failed(message), p.agent, p.role);
    }
    lemma_over_tallied(done, p.agent, p.role);
}

/// Planning turns changes nothing that is counted.
proof fn lemma_plans_tallied(start: Planned, n: int)
    requires
        tallied(start.0),
    ensures
        tallied(plan_metas(start, n).0),
        tallied(plan_team(start, n).0),
    decreases n,
{
    if n > 0 {
        lemma_plans_tallied(start, n - 1);
    }
}

/// Scheduling and the watchdog leave the counters in agreement with the world.
pub proof fn scheduling_stays_tallied(w: WorldView, io_error: Option<Seq<char>>)
    requires
        tallied(w),
        w.log_room(1, 0, 0),
    ensures
        tallied(scheduled(w, io_error).0),
        tallied(watched(w).0),
{
    broadcast use lemma_log_counts;

    if let Some(e) = io_error {
        lemma_failed_tallied(w, "events.jsonl write failed: "@ + e, 0);
    }
    let checked = match io_error {
        Some(e) => w.failed("events.jsonl write failed: "@ + e),
        None => w,
    };
    assert(tallied(checked));
    let first = plan_orchestrator(debt_settled(checked));
    lemma_plans_tallied(first, checked.metas.len() as int);
    lemma_plans_tallied(plan_metas(first, checked.metas.len() as int), checked.team.len() as int);
}

// ---------------------------------------------------------------------------
// Counts over the log.
// ---------------------------------------------------------------------------

/// How many events of a log are of some sort.
pub open spec fn occurrences(log: Seq<EventView>, sort: spec_fn(EventView) -> bool) -> nat
    decreases log.len(),
{
    if log.len() == 0 {
        0
    } else if sort(log.last()) {
        occurrences(log.drop_last(), sort) + 1
    } else {
        occurrences(log.drop_last(), sort)
    }
}

/// The tokens that a log reports.
pub open spec fn logged_tokens(log: Seq<EventView>) -> nat
    decreases log.len(),
{
    if log.len() == 0 {
        0
    } else {
        logged_tokens(log.drop_last()) + event_tokens(log.last().kind)
    }
}

/// The bytes of knowledge that a log reports.
pub open spec fn logged_bytes(log: Seq<EventView>) -> nat
    decreases log.len(),
{
    if log.len() == 0 {
        0
    } else {
        logged_bytes(log.drop_last()) + event_bytes(log.last().kind)
    }
}

/// How the run ended, as the last such event of a log says.
pub open spec fn logged_outcome(log: Seq<EventView>) -> Option<(RunFinishReason, u8)>
    decreases log.len(),
{
    if log.len() == 0 {
        None
    } else {
        match log.last().kind {
            KindView::RunFinished { reason, exit_code } => Some((reason, exit_code)),
            _ => logged_outcome(log.drop_last()),
        }
    }
}

/// The counters are counts over a log.
pub open spec fn counts_log(m: MetricsView, log: Seq<EventView>) -> bool {
    let c = m.counts;
    &&& c.ticks == occurrences(
        log,
        |e: EventView|
            e.kind is TurnCompleted && e.source == EventSource::Agent(AgentId::Orchestrator),
    )
    &&& c.tasks_created == occurrences(log, |e: EventView| e.kind is TaskCreated)
    &&& c.tasks_completed == occurrences(log, |e: EventView| e.kind is TaskCompleted)
    &&& c.tasks_cancelled == occurrences(log, |e: EventView| e.kind is TaskCancelled)
    &&& c.messages_total == occurrences(log, |e: EventView| e.kind is MessageSent)
    &&& c.messages_direct == occurrences(
        log,
        |e: EventView|
            e.kind matches KindView::MessageSent { address, .. } && address is Direct,
    )
    &&& c.messages_team == occurrences(
        log,
        |e: EventView|
            e.kind matches KindView::MessageSent { address, .. } && address is Team,
    )
    &&& c.messages_broadcast == occurrences(
        log,
        |e: EventView|
            e.kind matches KindView::MessageSent { address, .. } && address is Broadcast,
    )
    &&& c.knowledge_messages == occurrences(log, |e: EventView| e.kind is MessageSent)
    &&& c.knowledge_notes == occurrences(log, |e: EventView| e.kind is KnowledgeWritten)
    &&& c.knowledge_completions == occurrences(log, |e: EventView| e.kind is TaskCompleted)
    &&& c.sleeps == occurrences(log, |e: EventView| e.kind is AgentSlept)
    &&& c.wakes == occurrences(log, |e: EventView| e.kind is AgentWoke)
    &&& c.parks == occurrences(log, |e: EventView| e.kind is AgentParked)
    &&& c.directives_issued == occurrences(log, |e: EventView| e.kind is DirectiveIssued)
    &&& c.directives_fulfilled == occurrences(
        log,
        |e: EventView|
            e.kind is DirectiveFulfilled
                || (e.kind matches KindView::DirectiveIssued { tier, .. }
                && tier is Mechanical),
    )
    &&& c.directives_declined == occurrences(log, |e: EventView| e.kind is DirectiveDeclined)
    &&& c.liveness_nudges == occurrences(log, |e: EventView| e.kind is LivenessNudge)
    &&& c.knowledge_bytes == logged_bytes(log)
    &&& c.tokens_total == logged_tokens(log)
    &&& m.outcome == logged_outcome(log)
}

/// What one event adds to the counters of ticks, tasks and messages.
proof fn lemma_work_counts(m: MetricsView, e: EventView)
    requires
        m.counts.ticks < u64::MAX,
        m.counts.ticks_since_done < u64::MAX,
        m.counts.tasks_created < u64::MAX,
        m.counts.tasks_completed < u64::MAX,
        m.counts.tasks_cancelled < u64::MAX,
        m.counts.messages_total < u64::MAX,
        m.counts.messages_direct < u64::MAX,
        m.counts.messages_team < u64::MAX,
        m.counts.messages_broadcast < u64::MAX,
        m.counts.knowledge_messages < u64::MAX,
        m.counts.knowledge_notes < u64::MAX,
        m.counts.knowledge_completions < u64::MAX,
        m.counts.sleeps < u64::MAX,
        m.counts.wakes < u64::MAX,
        m.counts.parks < u64::MAX,
        m.counts.directives_issued < u64::MAX,
        m.counts.directives_fulfilled < u64::MAX,
        m.counts.directives_declined < u64::MAX,
        m.counts.liveness_nudges < u64::MAX,
        m.counts.knowledge_bytes + event_bytes(e.kind) <= u64::MAX,
        m.counts.tokens_total + event_tokens(e.kind) <= u64::MAX,
    ensures
        ({
            let c = m.counts;
            let d = m.fold(e).counts;
            &&& d.ticks == bumped(
                c.ticks,
                e.kind is TurnCompleted && e.source == EventSource::Agent(AgentId::Orchestrator),
            )
            &&& d.tasks_created == bumped(c.tasks_created, e.kind is TaskCreated)
            &&& d.tasks_completed == bumped(c.tasks_completed, e.kind is TaskCompleted)
            &&& d.tasks_cancelled == bumped(c.tasks_cancelled, e.kind is TaskCancelled)
            &&& d.messages_total == bumped(c.messages_total, e.kind is MessageSent)
            &&& d.messages_direct == bumped(
                c.messages_direct,
                e.kind matches KindView::MessageSent { address, .. } && address is Direct,
            )
            &&& d.messages_team == bumped(
                c.messages_team,
                e.kind matches KindView::MessageSent { address, .. } && address is Team,
            )
            &&& d.messages_broadcast == bumped(
                c.messages_broadcast,
                e.kind matches KindView::MessageSent { address, .. } && address is Broadcast,
            )
            &&& d.ticks_since_done <= c.ticks_since_done + 1
        }),
{
    reveal(MetricsView::folded);
}

/// What one event adds to the counters of knowledge, of agents that sleep, wake or are parked, of
/// directives and of nudges.
proof fn lemma_other_counts(m: MetricsView, e: EventView)
    requires
        m.counts.ticks < u64::MAX,
        m.counts.ticks_since_done < u64::MAX,
        m.counts.tasks_created < u64::MAX,
        m.counts.tasks_completed < u64::MAX,
        m.counts.tasks_cancelled < u64::MAX,
        m.counts.messages_total < u64::MAX,
        m.counts.messages_direct < u64::MAX,
        m.counts.messages_team < u64::MAX,
        m.counts.messages_broadcast < u64::MAX,
        m.counts.knowledge_messages < u64::MAX,
        m.counts.knowledge_notes < u64::MAX,
        m.counts.knowledge_completions < u64::MAX,
        m.counts.sleeps < u64::MAX,
        m.counts.wakes < u64::MAX,
        m.counts.parks < u64::MAX,
        m.counts.directives_issued < u64::MAX,
        m.counts.directives_fulfilled < u64::MAX,
        m.counts.directives_declined < u64::MAX,
        m.counts.liveness_nudges < u64::MAX,
        m.counts.knowledge_bytes + event_bytes(e.kind) <= u64::MAX,
        m.counts.tokens_total + event_tokens(e.kind) <= u64::MAX,
    ensures
        ({
            let c = m.counts;
            let d = m.fold(e).counts;
            &&& d.knowledge_messages == bumped(c.knowledge_messages, e.kind is MessageSent)
            &&& d.knowledge_notes == bumped(c.knowledge_notes, e.kind is KnowledgeWritten)
            &&& d.knowledge_completions == bumped(c.knowledge_completions, e.kind is TaskCompleted)
            &&& d.sleeps == bumped(c.sleeps, e.kind is AgentSlept)
            &&& d.wakes == bumped(c.wakes, e.kind is AgentWoke)
            &&& d.parks == bumped(c.parks, e.kind is AgentParked)
            &&& d.directives_issued == bumped(c.directives_issued, e.kind is DirectiveIssued)
            &&& d.directives_fulfilled == bumped(
                c.directives_fulfilled,
                e.kind is DirectiveFulfilled
                    || (e.kind matches KindView::DirectiveIssued { tier, .. }
                    && tier is Mechanical),
            )
            &&& d.directives_declined == bumped(c.directives_declined, e.kind is DirectiveDeclined)
            &&& d.liveness_nudges == bumped(c.liveness_nudges, e.kind is LivenessNudge)
        }),
{
    reveal(MetricsView::folded);
}

/// What one event adds to the sums, and what it says of the outcome.
proof fn lemma_sums(m: MetricsView, e: EventView)
    requires
        m.counts.knowledge_bytes + event_bytes(e.kind) <= u64::MAX,
        m.counts.tokens_total + event_tokens(e.kind) <= u64::MAX,
    ensures
        m.fold(e).counts.knowledge_bytes == m.counts.knowledge_bytes + event_bytes(e.kind),
        m.fold(e).counts.tokens_total == m.counts.tokens_total + event_tokens(e.kind),
        m.fold(e).outcome == (match e.kind {
            KindView::RunFinished { reason, exit_code } => Some((reason, exit_code)),
            _ => m.outcome,
        }),
{
    reveal(MetricsView::folded);
}

proof fn lemma_occurrences(log: Seq<EventView>, sort: spec_fn(EventView) -> bool)
    ensures
        occurrences(log, sort) <= log.len(),
    decreases log.len(),
{
    if log.len() > 0 {
        lemma_occurrences(log.drop_last(), sort);
    }
}

/// The counters are counts over the log, whatever the log: of ticks (turns of the orchestrator),
/// tasks, messages, knowledge, sleeps, wakes, parks, directives (mechanical ones are fulfilled when
/// they are issued) and nudges; tokens and bytes are sums, and the outcome is the last one logged.
pub proof fn metrics_count_the_log(log: Seq<EventView>)
    requires
        log.len() <= u64::MAX,
        logged_tokens(log) <= u64::MAX,
        logged_bytes(log) <= u64::MAX,
    ensures
        counts_log(fold_log(log), log),
        fold_log(log).counts.ticks_since_done <= log.len(),
    decreases log.len(),
{
    if log.len() > 0 {
        let before = log.drop_last();
        metrics_count_the_log(before);
        let m = fold_log(before);
        lemma_occurrences(
            before,
            |e: EventView|
                e.kind is TurnCompleted && e.source == EventSource::Agent(AgentId::Orchestrator),
        );
        lemma_occurrences(before, |e: EventView| e.kind is TaskCreated);
        lemma_occurrences(before, |e: EventView| e.kind is TaskCompleted);
        lemma_occurrences(before, |e: EventView| e.kind is TaskCancelled);
        lemma_occurrences(before, |e: EventView| e.kind is MessageSent);
        lemma_occurrences(
            before,
            |e: EventView|
                e.kind matches KindView::MessageSent { address, .. } && address is Direct,
        );
        lemma_occurrences(
            before,
            |e: EventView|
                e.kind matches KindView::MessageSent { address, .. } && address is Team,
        );
        lemma_occurrences(
            before,
            |e: EventView|
                e.kind matches KindView::MessageSent { address, .. } && address is Broadcast,
        );
        lemma_occurrences(before, |e: EventView| e.kind is MessageSent);
        lemma_occurrences(before, |e: EventView| e.kind is KnowledgeWritten);
        lemma_occurrences(before, |e: EventView| e.kind is TaskCompleted);
        lemma_occurrences(before, |e: EventView| e.kind is AgentSlept);
        lemma_occurrences(before, |e: EventView| e.kind is AgentWoke);
        lemma_occurrences(before, |e: EventView| e.kind is AgentParked);
        lemma_occurrences(before, |e: EventView| e.kind is DirectiveIssued);
        lemma_occurrences(
            before,
            |e: EventView|
                e.kind is DirectiveFulfilled
                    || (e.kind matches KindView::DirectiveIssued { tier, .. }
                    && tier is Mechanical),
        );
        lemma_occurrences(before, |e: EventView| e.kind is DirectiveDeclined);
        lemma_occurrences(before, |e: EventView| e.kind is LivenessNudge);
        lemma_work_counts(m, log.last());
        lemma_other_counts(m, log.last());
        lemma_sums(m, log.last());
    }
}

/// A summary tells what the log holds.
pub proof fn summaries_count_the_log(log: Seq<EventView>, s: RunSummary)
    requires
        log.len() <= u64::MAX,
        logged_tokens(log) <= u64::MAX,
        logged_bytes(log) <= u64::MAX,
        s.of(fold_log(log)),
    ensures
        s.counts.ticks == occurrences(
            log,
            |e: EventView|
                e.kind is TurnCompleted && e.source == EventSource::Agent(AgentId::Orchestrator),
        ),
        s.counts.tokens_total == logged_tokens(log),
        s.knowledge_entries == occurrences(log, |e: EventView| e.kind is MessageSent) + occurrences(
            log,
            |e: EventView| e.kind is KnowledgeWritten,
        ) + occurrences(log, |e: EventView| e.kind is TaskCompleted),
        s.outcome == logged_outcome(log),
        counts_log(fold_log(log), log),
        s.counts == fold_log(log).counts,
{
    metrics_count_the_log(log);
}

} // verus!
