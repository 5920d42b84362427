//! The event log: what happened in a run, in order.
use crate::agent::{AgentId, SpecialtySlug};
use crate::board::tag_view;
use crate::directive::{DirectiveKind, DirectiveTier};
use crate::ids::{
    DirectiveId, EventId, KnowledgeEntryId, MessageId, RunId, TaskId, TeamId,
};
use crate::json::{Json, JsonView};
use crate::message::{Address, AddressView};
use crate::text::same;
use vstd::prelude::*;

verus! {

/// A point in time. Informational: nothing is ordered by it.
#[derive(Clone, Copy, PartialEq, Eq, Structural, Debug)]
pub struct Timestamp {
    /// Milliseconds since the Unix epoch.
    pub millis: i64,
    /// Nanoseconds beyond the millisecond, before 1970 below it.
    pub nanos: i32,
}

/// Who an event is attributed to.
#[derive(Clone, Copy, PartialEq, Eq, Structural, Debug)]
pub enum EventSource {
    /// The acting agent.
    Agent(AgentId),
    /// The runtime itself.
    System,
}

impl EventSource {
    /// The source as text.
    pub open spec fn text(self) -> Seq<char> {
        match self {
            EventSource::Agent(agent) => agent.handle(),
            EventSource::System => "system"@,
        }
    }

    /// The acting agent, if any.
    pub open spec fn actor(self) -> Option<AgentId> {
        match self {
            EventSource::Agent(agent) => Some(agent),
            EventSource::System => None,
        }
    }

    /// The acting agent, if any.
    pub fn agent(&self) -> (r: Option<AgentId>)
        ensures
            r == self.actor(),
    {
        match self {
            EventSource::Agent(agent) => Some(*agent),
            EventSource::System => None,
        }
    }

    /// Whether the runtime itself is the source.
    pub fn is_system(&self) -> (b: bool)
        ensures
            b == (self is System),
    {
        matches!(self, EventSource::System)
    }

    /// The source as text.
    pub fn as_str(&self) -> (s: String)
        ensures
            s@ == self.text(),
    {
        match self {
            EventSource::Agent(agent) => agent.as_str(),
            EventSource::System => "system".to_owned(),
        }
    }

    /// Reads a source.
    pub fn parse(value: &str) -> (r: Option<EventSource>)
        ensures
            r == source_of(value@),
    {
        if same(value, "system") {
            Some(EventSource::System)
        } else {
            match AgentId::parse(value) {
                Some(agent) => Some(EventSource::Agent(agent)),
                None => None,
            }
        }
    }
}

/// The source that a text names.
pub open spec fn source_of(s: Seq<char>) -> Option<EventSource> {
    if s == "system"@ {
        Some(EventSource::System)
    } else {
        match crate::agent::handle_agent(s) {
            Some(agent) => Some(EventSource::Agent(agent)),
            None => None,
        }
    }
}

/// Reading a source's text gives the source back.
pub proof fn source_reads_back(source: EventSource)
    ensures
        source_of(source.text()) == Some(source),
{
    if let EventSource::Agent(agent) = source {
        crate::agent::handle_reads_back(agent);
        reveal_strlit("system");
        reveal_strlit("orchestrator");
        reveal_strlit("agent-");
        reveal_strlit("meta-");
        assert(source.text()[0] != 's');
    }
}

/// The limits that a run was started with.
#[derive(Clone, Copy, PartialEq, Eq, Structural, Debug)]
pub struct RunCaps {
    /// Orchestrator turns.
    pub max_ticks: Option<u64>,
    /// Completions.
    pub max_llm_calls: Option<u64>,
    /// Milliseconds.
    pub max_duration_ms: Option<u64>,
}

impl Default for RunCaps {
    fn default() -> (c: RunCaps)
        ensures
            c == (RunCaps { max_ticks: None, max_llm_calls: None, max_duration_ms: None }),
    {
        RunCaps { max_ticks: None, max_llm_calls: None, max_duration_ms: None }
    }
}

/// Which limit ended a run.
#[derive(Clone, Copy, PartialEq, Eq, Structural, Debug)]
pub enum CapKind {
    /// Orchestrator turns.
    MaxTicks,
    /// Completions.
    MaxLlmCalls,
    /// Time.
    MaxDuration,
}

impl CapKind {
    /// The limit's name.
    pub open spec fn name(self) -> Seq<char> {
        match self {
            CapKind::MaxTicks => "MaxTicks"@,
            CapKind::MaxLlmCalls => "MaxLlmCalls"@,
            CapKind::MaxDuration => "MaxDuration"@,
        }
    }

    /// The limit's name.
    pub fn as_str(&self) -> (s: &'static str)
        ensures
            s@ == self.name(),
    {
        match self {
            CapKind::MaxTicks => "MaxTicks",
            CapKind::MaxLlmCalls => "MaxLlmCalls",
            CapKind::MaxDuration => "MaxDuration",
        }
    }
}

/// Why a run finished.
#[derive(Clone, Copy, PartialEq, Eq, Structural, Debug)]
pub enum RunFinishReason {
    /// The orchestrator finished it.
    CleanFinish,
    /// A limit was reached.
    CapHit(CapKind),
    /// Something in the harness failed.
    HarnessError,
}

/// How a turn ended.
#[derive(Clone, Copy, PartialEq, Eq, Structural, Debug)]
pub enum TurnOutcome {
    /// With a completion that calls no tool.
    Yielded,
    /// At the limit of tool rounds.
    ToolIterCap,
}

/// Tokens used in a turn.
#[derive(Clone, Copy, PartialEq, Eq, Structural, Debug)]
pub struct TurnUsage {
    /// In prompts.
    pub prompt: u64,
    /// In completions.
    pub completion: u64,
    /// In all.
    pub total: u64,
}

/// What a woken agent goes back to.
#[derive(Clone, Copy, PartialEq, Eq, Structural, Debug)]
pub enum RestoredState {
    /// Its claimed task.
    Working {
        /// The task.
        task: TaskId,
    },
    /// Nothing in particular.
    Idle,
}

/// A section of a prompt that lost items to its budget.
#[derive(PartialEq, Eq, Debug)]
pub struct DegradedSection {
    /// The section's name.
    pub kind: String,
    /// Its budget in tokens.
    pub budget: u32,
    /// What it used.
    pub used: u32,
    /// How many items were dropped.
    pub dropped_items: u32,
}

/// What happened.
#[derive(Debug)]
#[allow(inconsistent_fields)]
pub enum EventKind {
    /// The run started; always event 0.
    RunStarted {
        /// The run.
        run_id: RunId,
        /// The seed.
        seed: u64,
        /// The goal.
        goal: String,
        /// How many team agents.
        agents: u32,
        /// How many meta-agents.
        meta_agents: u32,
        /// How many team agents work at once.
        parallel: u32,
        /// The scenario's name.
        scenario: Option<String>,
        /// The limits.
        caps: RunCaps,
    },
    /// The run finished; always the last event.
    RunFinished {
        /// Why.
        reason: RunFinishReason,
        /// The exit code.
        exit_code: u8,
    },
    /// A limit was reached.
    CapHit {
        /// Which.
        cap: CapKind,
        /// The limit.
        limit: u64,
        /// What was counted.
        observed: u64,
    },
    /// A task was created.
    TaskCreated {
        /// The task.
        task: TaskId,
        /// Its title.
        title: String,
        /// What is to be done.
        description: String,
        /// Its tag.
        team: Option<TeamId>,
    },
    /// A task was claimed.
    TaskClaimed {
        /// The task.
        task: TaskId,
        /// Its tag.
        team: Option<TeamId>,
    },
    /// A task was released by its claimant.
    TaskReleased {
        /// The task.
        task: TaskId,
        /// Why.
        reason: Option<String>,
    },
    /// A task was taken from its claimant.
    TaskUnassigned {
        /// The task.
        task: TaskId,
        /// Whom it was taken from.
        prev_claimant: AgentId,
        /// Why.
        reason: Option<String>,
        /// The directive that caused it.
        via_directive: Option<DirectiveId>,
    },
    /// A task was completed.
    TaskCompleted {
        /// The task.
        task: TaskId,
        /// The result.
        result: String,
        /// The knowledge entry of the result.
        result_ref: KnowledgeEntryId,
    },
    /// A task was cancelled.
    TaskCancelled {
        /// The task.
        task: TaskId,
        /// Why.
        reason: String,
    },
    /// A message was accepted.
    MessageSent {
        /// The message.
        message: MessageId,
        /// Whom it is for.
        address: Address,
        /// What it says.
        body: String,
        /// The knowledge entry of the body.
        knowledge_ref: KnowledgeEntryId,
    },
    /// Messages were delivered to the source.
    MessagesDelivered {
        /// Which.
        delivered: Vec<MessageId>,
    },
    /// A note was written.
    KnowledgeWritten {
        /// The entry.
        entry: KnowledgeEntryId,
        /// The note.
        text: String,
    },
    /// A turn ended.
    TurnCompleted {
        /// The number of its first completion.
        first_call_seq: u64,
        /// The number of its last completion.
        last_call_seq: u64,
        /// How many tool rounds.
        tool_iters: u32,
        /// How it ended.
        outcome: TurnOutcome,
        /// Whether it made calls and all of them were malformed.
        malformed: bool,
        /// Tokens used.
        usage: TurnUsage,
        /// The task that the agent was on.
        on_task: Option<TaskId>,
    },
    /// An agent was put to sleep.
    AgentSlept {
        /// The agent.
        agent: AgentId,
        /// The directive that caused it.
        via_directive: Option<DirectiveId>,
    },
    /// An agent was parked after malformed turns in a row.
    AgentParked {
        /// The agent.
        agent: AgentId,
        /// How many malformed turns.
        count: u32,
    },
    /// An agent was woken.
    AgentWoke {
        /// The agent.
        agent: AgentId,
        /// What it goes back to.
        restored: RestoredState,
        /// The directive that caused it.
        via_directive: Option<DirectiveId>,
    },
    /// The number of team agents that work at once changed.
    ParallelismChanged {
        /// What was asked for.
        requested: u32,
        /// What was granted.
        effective: u32,
        /// The directive that caused it.
        via_directive: DirectiveId,
    },
    /// The watchdog nudged the run.
    LivenessNudge {
        /// Open tasks.
        board_open: u32,
        /// Tasks whose claimant sleeps.
        claimed_by_asleep: u32,
    },
    /// A team was formed.
    TeamFormed {
        /// The team.
        team: TeamId,
        /// Its members.
        members: Vec<AgentId>,
    },
    /// A team's members were replaced.
    TeamMembersSet {
        /// The team.
        team: TeamId,
        /// Its members.
        members: Vec<AgentId>,
        /// Who joined.
        added: Vec<AgentId>,
        /// Who left.
        removed: Vec<AgentId>,
        /// The directive that caused it.
        via_directive: Option<DirectiveId>,
    },
    /// A team was dissolved.
    TeamDissolved {
        /// The team.
        team: TeamId,
    },
    /// An agent got another specialty.
    AgentRespecialized {
        /// The agent.
        agent: AgentId,
        /// What it was.
        from: SpecialtySlug,
        /// What it is.
        to: SpecialtySlug,
        /// The directive that caused it.
        via_directive: Option<DirectiveId>,
    },
    /// A directive was issued.
    DirectiveIssued {
        /// The directive.
        directive: DirectiveId,
        /// Its tier.
        tier: DirectiveTier,
        /// Its verb.
        kind: DirectiveKind,
        /// Its arguments.
        args: Json,
    },
    /// A judgment directive was acted on.
    DirectiveFulfilled {
        /// The directive.
        directive: DirectiveId,
        /// By whom.
        by: AgentId,
    },
    /// A judgment directive was turned down.
    DirectiveDeclined {
        /// The directive.
        directive: DirectiveId,
        /// Its verb.
        kind: DirectiveKind,
        /// Why.
        reason: String,
        /// By whom.
        by: AgentId,
    },
    /// A prompt lost items to a budget.
    ContextDegraded {
        /// Whose prompt.
        agent: AgentId,
        /// Which sections.
        sections: Vec<DegradedSection>,
    },
}

/// What happened, in specifications.
#[allow(inconsistent_fields)]
pub enum KindView {
    /// The run started.
    RunStarted {
        run_id: RunId,
        seed: u64,
        goal: Seq<char>,
        agents: u32,
        meta_agents: u32,
        parallel: u32,
        scenario: Option<Seq<char>>,
        caps: RunCaps,
    },
    /// The run finished.
    RunFinished { reason: RunFinishReason, exit_code: u8 },
    /// A limit was reached.
    CapHit { cap: CapKind, limit: u64, observed: u64 },
    /// A task was created.
    TaskCreated {
        task: TaskId,
        title: Seq<char>,
        description: Seq<char>,
        team: Option<Seq<char>>,
    },
    /// A task was claimed.
    TaskClaimed { task: TaskId, team: Option<Seq<char>> },
    /// A task was released by its claimant.
    TaskReleased { task: TaskId, reason: Option<Seq<char>> },
    /// A task was taken from its claimant.
    TaskUnassigned {
        task: TaskId,
        prev_claimant: AgentId,
        reason: Option<Seq<char>>,
        via_directive: Option<DirectiveId>,
    },
    /// A task was completed.
    TaskCompleted { task: TaskId, result: Seq<char>, result_ref: KnowledgeEntryId },
    /// A task was cancelled.
    TaskCancelled { task: TaskId, reason: Seq<char> },
    /// A message was accepted.
    MessageSent {
        message: MessageId,
        address: AddressView,
        body: Seq<char>,
        knowledge_ref: KnowledgeEntryId,
    },
    /// Messages were delivered to the source.
    MessagesDelivered { delivered: Seq<MessageId> },
    /// A note was written.
    KnowledgeWritten { entry: KnowledgeEntryId, text: Seq<char> },
    /// A turn ended.
    TurnCompleted {
        first_call_seq: u64,
        last_call_seq: u64,
        tool_iters: u32,
        outcome: TurnOutcome,
        malformed: bool,
        usage: TurnUsage,
        on_task: Option<TaskId>,
    },
    /// An agent was put to sleep.
    AgentSlept { agent: AgentId, via_directive: Option<DirectiveId> },
    /// An agent was parked.
    AgentParked { agent: AgentId, count: u32 },
    /// An agent was woken.
    AgentWoke { agent: AgentId, restored: RestoredState, via_directive: Option<DirectiveId> },
    /// The number of team agents that work at once changed.
    ParallelismChanged { requested: u32, effective: u32, via_directive: DirectiveId },
    /// The watchdog nudged the run.
    LivenessNudge { board_open: u32, claimed_by_asleep: u32 },
    /// A team was formed.
    TeamFormed { team: Seq<char>, members: Seq<AgentId> },
    /// A team's members were replaced.
    TeamMembersSet {
        team: Seq<char>,
        members: Seq<AgentId>,
        added: Seq<AgentId>,
        removed: Seq<AgentId>,
        via_directive: Option<DirectiveId>,
    },
    /// A team was dissolved.
    TeamDissolved { team: Seq<char> },
    /// An agent got another specialty.
    AgentRespecialized {
        agent: AgentId,
        from: Seq<char>,
        to: Seq<char>,
        via_directive: Option<DirectiveId>,
    },
    /// A directive was issued.
    DirectiveIssued {
        directive: DirectiveId,
        tier: DirectiveTier,
        kind: DirectiveKind,
        args: JsonView,
    },
    /// A judgment directive was acted on.
    DirectiveFulfilled { directive: DirectiveId, by: AgentId },
    /// A judgment directive was turned down.
    DirectiveDeclined {
        directive: DirectiveId,
        kind: DirectiveKind,
        reason: Seq<char>,
        by: AgentId,
    },
    /// A prompt lost items to a budget.
    ContextDegraded { agent: AgentId, sections: Seq<DegradedView> },
}

/// A degraded section in specifications.
pub struct DegradedView {
    /// The section's name.
    pub kind: Seq<char>,
    /// Its budget.
    pub budget: u32,
    /// What it used.
    pub used: u32,
    /// How many items were dropped.
    pub dropped_items: u32,
}

impl View for DegradedSection {
    type V = DegradedView;

    open spec fn view(&self) -> DegradedView {
        DegradedView {
            kind: self.kind@,
            budget: self.budget,
            used: self.used,
            dropped_items: self.dropped_items,
        }
    }
}

/// Degraded sections in specifications.
pub open spec fn degraded_views(v: Seq<DegradedSection>) -> Seq<DegradedView> {
    Seq::new(v.len(), |i: int| v[i]@)
}

/// An optional text in specifications.
pub open spec fn text_view(s: Option<String>) -> Option<Seq<char>> {
    match s {
        Some(t) => Some(t@),
        None => None,
    }
}

impl View for EventKind {
    type V = KindView;

    open spec fn view(&self) -> KindView {
        match *self {
            EventKind::RunStarted {
                run_id,
                seed,
                goal,
                agents,
                meta_agents,
                parallel,
                scenario,
                caps,
            } => KindView::RunStarted {
                run_id,
                seed,
                goal: goal@,
                agents,
                meta_agents,
                parallel,
                scenario: text_view(scenario),
                caps,
            },
            EventKind::RunFinished { reason, exit_code } => KindView::RunFinished {
                reason,
                exit_code,
            },
            EventKind::CapHit { cap, limit, observed } => KindView::CapHit { cap, limit, observed },
            EventKind::TaskCreated { task, title, description, team } => KindView::TaskCreated {
                task,
                title: title@,
                description: description@,
                team: tag_view(team),
            },
            EventKind::TaskClaimed { task, team } => KindView::TaskClaimed {
                task,
                team: tag_view(team),
            },
            EventKind::TaskReleased { task, reason } => KindView::TaskReleased {
                task,
                reason: text_view(reason),
            },
            EventKind::TaskUnassigned { task, prev_claimant, reason, via_directive } =>
            KindView::TaskUnassigned {
                task,
                prev_claimant,
                reason: text_view(reason),
                via_directive,
            },
            EventKind::TaskCompleted { task, result, result_ref } => KindView::TaskCompleted {
                task,
                result: result@,
                result_ref,
            },
            EventKind::TaskCancelled { task, reason } => KindView::TaskCancelled {
                task,
                reason: reason@,
            },
            EventKind::MessageSent { message, address, body, knowledge_ref } =>
            KindView::MessageSent { message, address: address@, body: body@, knowledge_ref },
            EventKind::MessagesDelivered { delivered } => KindView::MessagesDelivered {
                delivered: delivered@,
            },
            EventKind::KnowledgeWritten { entry, text } => KindView::KnowledgeWritten {
                entry,
                text: text@,
            },
            EventKind::TurnCompleted {
                first_call_seq,
                last_call_seq,
                tool_iters,
                outcome,
                malformed,
                usage,
                on_task,
            } => KindView::TurnCompleted {
                first_call_seq,
                last_call_seq,
                tool_iters,
                outcome,
                malformed,
                usage,
                on_task,
            },
            EventKind::AgentSlept { agent, via_directive } => KindView::AgentSlept {
                agent,
                via_directive,
            },
            EventKind::AgentParked { agent, count } => KindView::AgentParked { agent, count },
            EventKind::AgentWoke { agent, restored, via_directive } => KindView::AgentWoke {
                agent,
                restored,
                via_directive,
            },
            EventKind::ParallelismChanged { requested, effective, via_directive } =>
            KindView::ParallelismChanged { requested, effective, via_directive },
            EventKind::LivenessNudge { board_open, claimed_by_asleep } => KindView::LivenessNudge {
                board_open,
                claimed_by_asleep,
            },
            EventKind::TeamFormed { team, members } => KindView::TeamFormed {
                team: team@,
                members: members@,
            },
            EventKind::TeamMembersSet { team, members, added, removed, via_directive } =>
            KindView::TeamMembersSet {
                team: team@,
                members: members@,
                added: added@,
                removed: removed@,
                via_directive,
            },
            EventKind::TeamDissolved { team } => KindView::TeamDissolved { team: team@ },
            EventKind::AgentRespecialized { agent, from, to, via_directive } =>
            KindView::AgentRespecialized { agent, from: from@, to: to@, via_directive },
            EventKind::DirectiveIssued { directive, tier, kind, args } =>
            KindView::DirectiveIssued { directive, tier, kind, args: args@ },
            EventKind::DirectiveFulfilled { directive, by } => KindView::DirectiveFulfilled {
                directive,
                by,
            },
            EventKind::DirectiveDeclined { directive, kind, reason, by } =>
            KindView::DirectiveDeclined { directive, kind, reason: reason@, by },
            EventKind::ContextDegraded { agent, sections } => KindView::ContextDegraded {
                agent,
                sections: degraded_views(sections@),
            },
        }
    }
}

impl KindView {
    /// The kind's name.
    pub open spec fn name(self) -> Seq<char> {
        match self {
            KindView::RunStarted { .. } => "run_started"@,
            KindView::RunFinished { .. } => "run_finished"@,
            KindView::CapHit { .. } => "cap_hit"@,
            KindView::TaskCreated { .. } => "task_created"@,
            KindView::TaskClaimed { .. } => "task_claimed"@,
            KindView::TaskReleased { .. } => "task_released"@,
            KindView::TaskUnassigned { .. } => "task_unassigned"@,
            KindView::TaskCompleted { .. } => "task_completed"@,
            KindView::TaskCancelled { .. } => "task_cancelled"@,
            KindView::MessageSent { .. } => "message_sent"@,
            KindView::MessagesDelivered { .. } => "messages_delivered"@,
            KindView::KnowledgeWritten { .. } => "knowledge_written"@,
            KindView::TurnCompleted { .. } => "turn_completed"@,
            KindView::AgentSlept { .. } => "agent_slept"@,
            KindView::AgentParked { .. } => "agent_parked"@,
            KindView::AgentWoke { .. } => "agent_woke"@,
            KindView::ParallelismChanged { .. } => "parallelism_changed"@,
            KindView::LivenessNudge { .. } => "liveness_nudge"@,
            KindView::TeamFormed { .. } => "team_formed"@,
            KindView::TeamMembersSet { .. } => "team_members_set"@,
            KindView::TeamDissolved { .. } => "team_dissolved"@,
            KindView::AgentRespecialized { .. } => "agent_respecialized"@,
            KindView::DirectiveIssued { .. } => "directive_issued"@,
            KindView::DirectiveFulfilled { .. } => "directive_fulfilled"@,
            KindView::DirectiveDeclined { .. } => "directive_declined"@,
            KindView::ContextDegraded { .. } => "context_degraded"@,
        }
    }
}

impl EventKind {
    /// The kind's name.
    pub fn as_str(&self) -> (s: &'static str)
        ensures
            s@ == self@.name(),
    {
        match self {
            EventKind::RunStarted { .. } => "run_started",
            EventKind::RunFinished { .. } => "run_finished",
            EventKind::CapHit { .. } => "cap_hit",
            EventKind::TaskCreated { .. } => "task_created",
            EventKind::TaskClaimed { .. } => "task_claimed",
            EventKind::TaskReleased { .. } => "task_released",
            EventKind::TaskUnassigned { .. } => "task_unassigned",
            EventKind::TaskCompleted { .. } => "task_completed",
            EventKind::TaskCancelled { .. } => "task_cancelled",
            EventKind::MessageSent { .. } => "message_sent",
            EventKind::MessagesDelivered { .. } => "messages_delivered",
            EventKind::KnowledgeWritten { .. } => "knowledge_written",
            EventKind::TurnCompleted { .. } => "turn_completed",
            EventKind::AgentSlept { .. } => "agent_slept",
            EventKind::AgentParked { .. } => "agent_parked",
            EventKind::AgentWoke { .. } => "agent_woke",
            EventKind::ParallelismChanged { .. } => "parallelism_changed",
            EventKind::LivenessNudge { .. } => "liveness_nudge",
            EventKind::TeamFormed { .. } => "team_formed",
            EventKind::TeamMembersSet { .. } => "team_members_set",
            EventKind::TeamDissolved { .. } => "team_dissolved",
            EventKind::AgentRespecialized { .. } => "agent_respecialized",
            EventKind::DirectiveIssued { .. } => "directive_issued",
            EventKind::DirectiveFulfilled { .. } => "directive_fulfilled",
            EventKind::DirectiveDeclined { .. } => "directive_declined",
            EventKind::ContextDegraded { .. } => "context_degraded",
        }
    }
}

/// One record of the log.
#[derive(Debug)]
pub struct Event {
    /// Its position.
    pub id: EventId,
    /// When, for people.
    pub at: Timestamp,
    /// Who did it.
    pub source: EventSource,
    /// What happened.
    pub kind: EventKind,
}

/// A record in specifications.
pub struct EventView {
    /// Its position.
    pub id: EventId,
    /// When, for people.
    pub at: Timestamp,
    /// Who did it.
    pub source: EventSource,
    /// What happened.
    pub kind: KindView,
}

impl View for Event {
    type V = EventView;

    open spec fn view(&self) -> EventView {
        EventView { id: self.id, at: self.at, source: self.source, kind: self.kind@ }
    }
}

/// A log in specifications.
pub open spec fn log_view(events: Seq<Event>) -> Seq<EventView> {
    Seq::new(events.len(), |i: int| events[i]@)
}

impl Event {
    /// A record.
    pub fn new(id: EventId, at: Timestamp, source: EventSource, kind: EventKind) -> (e: Event)
        ensures
            e == (Event { id, at, source, kind }),
    {
        Event { id, at, source, kind }
    }
}

} // verus!
