//! Metrics: one accumulator folded from the event log, and the views of it.
//!
//! Everything time-like counts in event ids and orchestrator turns; the one exception is the
//! duration line of the run summary.
use crate::agent::{AgentId, SpecialtySlug};
use crate::board::copy_agents;
use crate::directive::DirectiveTier;
use crate::event::{
    Event, EventKind, EventSource, EventView, KindView, RestoredState, RunFinishReason, Timestamp,
    TurnUsage,
};
use crate::fixed::{one_place, scale_thousandths, scaled, two_places};
use crate::ids::{EventId, MessageId, TaskId, TeamId};
use crate::message::{Address, AddressView};
use crate::table::{
    agent_row, lemma_row_at, lemma_same_keys, put_task, row, task_row, team_row, team_rows,
    with_row, without_row,
};
use crate::text::{
    byte_len, bytes_in, dec, dec_text, join, joined, no_lines, push_line, same, texts,
};
use vstd::prelude::*;

verus! {

/// What a team agent is doing, as the log tells it.
#[derive(Clone, Copy, PartialEq, Eq, Structural, Debug)]
pub enum MeterState {
    /// Nothing.
    Idle,
    /// A task.
    Working(TaskId),
    /// Sleeping or parked.
    Asleep,
}

/// A team agent, as the log tells it.
#[derive(Debug)]
struct AgentMeter {
    id: AgentId,
    state: MeterState,
    specialty: SpecialtySlug,
    idle_since: EventId,
    consecutive_malformed: u32,
}

/// A team agent in specifications.
#[verifier::ext_equal]
pub struct MeterView {
    /// Who.
    pub id: AgentId,
    /// What it is doing.
    pub state: MeterState,
    /// Its specialty.
    pub specialty: Seq<char>,
    /// The event from which its idle streak counts.
    pub idle_since: EventId,
    /// Malformed turns in a row.
    pub malformed: u32,
}

impl View for AgentMeter {
    type V = MeterView;

    closed spec fn view(&self) -> MeterView {
        MeterView {
            id: self.id,
            state: self.state,
            specialty: self.specialty@,
            idle_since: self.idle_since,
            malformed: self.consecutive_malformed,
        }
    }
}

/// The plain counters.
#[derive(Clone, Copy, PartialEq, Eq, Structural, Debug)]
pub struct Counts {
    /// Orchestrator turns.
    pub ticks: u64,
    /// Orchestrator turns since a task was last completed.
    pub ticks_since_done: u64,
    /// Tasks created.
    pub tasks_created: u64,
    /// Tasks completed.
    pub tasks_completed: u64,
    /// Tasks cancelled.
    pub tasks_cancelled: u64,
    /// Messages sent.
    pub messages_total: u64,
    /// Messages to one agent.
    pub messages_direct: u64,
    /// Messages to a team.
    pub messages_team: u64,
    /// Messages to all.
    pub messages_broadcast: u64,
    /// The deepest any mailbox has been.
    pub mailbox_max_depth: u64,
    /// Knowledge entries from messages.
    pub knowledge_messages: u64,
    /// Knowledge entries from notes.
    pub knowledge_notes: u64,
    /// Knowledge entries from results.
    pub knowledge_completions: u64,
    /// Bytes of knowledge.
    pub knowledge_bytes: u64,
    /// Agents put to sleep.
    pub sleeps: u64,
    /// Agents woken.
    pub wakes: u64,
    /// Agents parked.
    pub parks: u64,
    /// Tokens used.
    pub tokens_total: u64,
    /// Directives issued.
    pub directives_issued: u64,
    /// Directives fulfilled.
    pub directives_fulfilled: u64,
    /// Directives declined.
    pub directives_declined: u64,
    /// Watchdog nudges.
    pub liveness_nudges: u64,
}

/// All counters at zero.
pub open spec fn zero_counts() -> Counts {
    Counts {
        ticks: 0,
        ticks_since_done: 0,
        tasks_created: 0,
        tasks_completed: 0,
        tasks_cancelled: 0,
        messages_total: 0,
        messages_direct: 0,
        messages_team: 0,
        messages_broadcast: 0,
        mailbox_max_depth: 0,
        knowledge_messages: 0,
        knowledge_notes: 0,
        knowledge_completions: 0,
        knowledge_bytes: 0,
        sleeps: 0,
        wakes: 0,
        parks: 0,
        tokens_total: 0,
        directives_issued: 0,
        directives_fulfilled: 0,
        directives_declined: 0,
        liveness_nudges: 0,
    }
}

impl Counts {
    /// `k` more events, `bytes` more bytes of knowledge and `tokens` more tokens can be counted.
    pub open spec fn room(self, k: nat, bytes: nat, tokens: nat) -> bool {
        &&& self.ticks + k <= u64::MAX
        &&& self.ticks_since_done + k <= u64::MAX
        &&& self.tasks_created + k <= u64::MAX
        &&& self.tasks_completed + k <= u64::MAX
        &&& self.tasks_cancelled + k <= u64::MAX
        &&& self.messages_total + k <= u64::MAX
        &&& self.messages_direct + k <= u64::MAX
        &&& self.messages_team + k <= u64::MAX
        &&& self.messages_broadcast + k <= u64::MAX
        &&& self.knowledge_messages + self.knowledge_notes + self.knowledge_completions + k
            <= u64::MAX
        &&& self.knowledge_bytes + bytes <= u64::MAX
        &&& self.sleeps + k <= u64::MAX
        &&& self.wakes + k <= u64::MAX
        &&& self.parks + k <= u64::MAX
        &&& self.tokens_total + tokens <= u64::MAX
        &&& self.directives_issued + k <= u64::MAX
        &&& self.directives_fulfilled + k <= u64::MAX
        &&& self.directives_declined + k <= u64::MAX
        &&& self.liveness_nudges + k <= u64::MAX
    }
}

/// A message waiting for delivery: its id and the event that sent it.
pub type Waiting = (MessageId, EventId);

/// The accumulator in specifications.
#[verifier::ext_equal]
pub struct MetricsView {
    /// How many team agents.
    pub team_agent_count: u32,
    /// How many meta-agents.
    pub meta_agent_count: u32,
    /// How many team agents worked at once in the beginning.
    pub initial_parallelism: u32,
    /// The last event.
    pub last_event_id: Option<EventId>,
    /// When the first event happened.
    pub first_at: Option<Timestamp>,
    /// When the last event happened.
    pub last_at: Option<Timestamp>,
    /// The plain counters.
    pub counts: Counts,
    /// When each claimed task was claimed.
    pub claimed_at: Seq<(TaskId, EventId)>,
    /// How long each completed task was worked on, in event ids.
    pub work_latencies: Seq<u64>,
    /// The team agents.
    pub team_agents: Seq<MeterView>,
    /// Per recipient, what was sent and not yet delivered.
    pub pending: Seq<(AgentId, Seq<Waiting>)>,
    /// The members of each team.
    pub teams: Seq<(Seq<char>, Seq<AgentId>)>,
    /// Every change of specialty: who, from what, to what.
    pub respecializations: Seq<(AgentId, Seq<char>, Seq<char>)>,
    /// The specialties that have been used, in the order of first use.
    pub specialties_used: Seq<Seq<char>>,
    /// Every change of parallelism.
    pub parallelism_changes: Seq<u32>,
    /// Tokens by agent.
    pub tokens_per_agent: Seq<(AgentId, u64)>,
    /// How the run ended.
    pub outcome: Option<(RunFinishReason, u8)>,
}

/// The first position from `i` on of the agent's meter.
pub open spec fn meter_at(meters: Seq<MeterView>, agent: AgentId, i: int) -> Option<int>
    decreases meters.len() - i,
{
    if i < 0 || i >= meters.len() {
        None
    } else if meters[i].id == agent {
        Some(i)
    } else {
        meter_at(meters, agent, i + 1)
    }
}

/// A list of agents without one of them.
pub open spec fn others(list: Seq<AgentId>, sender: Option<AgentId>) -> Seq<AgentId>
    decreases list.len(),
{
    if list.len() == 0 {
        Seq::empty()
    } else if Some(list.last()) == sender {
        others(list.drop_last(), sender)
    } else {
        others(list.drop_last(), sender).push(list.last())
    }
}

/// A list of agents without one of them.
pub fn without_sender(list: &Vec<AgentId>, sender: Option<AgentId>) -> (r: Vec<AgentId>)
    ensures
        r@ == others(list@, sender),
{
    let mut r: Vec<AgentId> = Vec::new();
    let mut i: usize = 0;
    assert(list@.take(0) =~= Seq::<AgentId>::empty());
    while i < list.len()
        invariant
            0 <= i <= list.len(),
            r@ == others(list@.take(i as int), sender),
        decreases list.len() - i,
    {
        assert(list@.take(i + 1).drop_last() =~= list@.take(i as int));
        assert(list@.take(i + 1).last() == list@[i as int]);
        let skip = match sender {
            Some(s) => s == list[i],
            None => false,
        };
        if !skip {
            r.push(list[i]);
        }
        i = i + 1;
    }
    assert(list@.take(i as int) =~= list@);
    r
}

/// The queue of a recipient.
pub open spec fn waiting_for(pending: Seq<(AgentId, Seq<Waiting>)>, agent: AgentId) -> Seq<
    Waiting,
> {
    match row(pending, agent) {
        Some(q) => q,
        None => Seq::empty(),
    }
}

/// The queues after an item has been queued for each recipient in turn.
pub open spec fn queue_all(
    pending: Seq<(AgentId, Seq<Waiting>)>,
    recipients: Seq<AgentId>,
    item: Waiting,
) -> Seq<(AgentId, Seq<Waiting>)>
    decreases recipients.len(),
{
    if recipients.len() == 0 {
        pending
    } else {
        let before = queue_all(pending, recipients.drop_last(), item);
        let who = recipients.last();
        with_row(before, who, waiting_for(before, who).push(item))
    }
}

/// The deepest queue seen while an item is queued for each recipient in turn.
pub open spec fn deepest_after(
    pending: Seq<(AgentId, Seq<Waiting>)>,
    recipients: Seq<AgentId>,
    item: Waiting,
    deepest: u64,
) -> u64
    decreases recipients.len(),
{
    if recipients.len() == 0 {
        deepest
    } else {
        let before = deepest_after(pending, recipients.drop_last(), item, deepest);
        let depth = waiting_for(
            queue_all(pending, recipients.drop_last(), item),
            recipients.last(),
        ).len() + 1;
        if depth > before {
            depth as u64
        } else {
            before
        }
    }
}

/// What of a queue was not delivered.
pub open spec fn undelivered(queue: Seq<Waiting>, delivered: Seq<MessageId>) -> Seq<Waiting>
    decreases queue.len(),
{
    if queue.len() == 0 {
        Seq::empty()
    } else if delivered.contains(queue.last().0) {
        undelivered(queue.drop_last(), delivered)
    } else {
        undelivered(queue.drop_last(), delivered).push(queue.last())
    }
}

/// The bytes of knowledge that an event brings.
pub open spec fn event_bytes(kind: KindView) -> nat {
    match kind {
        KindView::TaskCompleted { result, .. } => byte_len(result),
        KindView::MessageSent { body, .. } => byte_len(body),
        KindView::KnowledgeWritten { text, .. } => byte_len(text),
        _ => 0,
    }
}

/// The tokens that an event reports.
pub open spec fn event_tokens(kind: KindView) -> nat {
    match kind {
        KindView::TurnCompleted { usage, .. } => usage.total as nat,
        _ => 0,
    }
}

impl MetricsView {
    /// Nothing folded yet.
    pub open spec fn empty() -> MetricsView {
        MetricsView {
            team_agent_count: 0,
            meta_agent_count: 0,
            initial_parallelism: 0,
            last_event_id: None,
            first_at: None,
            last_at: None,
            counts: zero_counts(),
            claimed_at: Seq::empty(),
            work_latencies: Seq::empty(),
            team_agents: Seq::empty(),
            pending: Seq::empty(),
            teams: Seq::empty(),
            respecializations: Seq::empty(),
            specialties_used: Seq::empty(),
            parallelism_changes: Seq::empty(),
            tokens_per_agent: Seq::empty(),
            outcome: None,
        }
    }

    /// `k` more events, `bytes` more bytes of knowledge and `tokens` more tokens can be counted.
    pub open spec fn room(self, k: nat, bytes: nat, tokens: nat) -> bool {
        &&& self.counts.room(k, bytes, tokens)
        &&& k <= u32::MAX
        &&& forall|i: int|
            0 <= i < self.team_agents.len() ==> (#[trigger] self.team_agents[i]).malformed + k
                <= u32::MAX
        &&& forall|i: int|
            0 <= i < self.tokens_per_agent.len() ==> (#[trigger] self.tokens_per_agent[i]).1
                + tokens <= u64::MAX
    }

    /// An agent in another state; its idle streak starts anew if it is idle.
    pub open spec fn with_state(self, agent: AgentId, state: MeterState, at: EventId) -> MetricsView {
        match meter_at(self.team_agents, agent, 0) {
            Some(i) => MetricsView {
                team_agents: self.team_agents.update(
                    i,
                    MeterView {
                        state,
                        idle_since: if state is Idle {
                            at
                        } else {
                            self.team_agents[i].idle_since
                        },
                        ..self.team_agents[i]
                    },
                ),
                ..self
            },
            None => self,
        }
    }

    /// The acting agent, if any, in another state.
    pub open spec fn with_actor_state(
        self,
        source: EventSource,
        state: MeterState,
        at: EventId,
    ) -> MetricsView {
        match source {
            EventSource::Agent(agent) => self.with_state(agent, state, at),
            EventSource::System => self,
        }
    }

    /// A specialty that has been used.
    pub open spec fn with_specialty(self, slug: Seq<char>) -> MetricsView {
        if self.specialties_used.contains(slug) {
            self
        } else {
            MetricsView { specialties_used: self.specialties_used.push(slug), ..self }
        }
    }

    /// The same with other counters.
    pub open spec fn with_counts(self, counts: Counts) -> MetricsView {
        MetricsView { counts, ..self }
    }

    /// Whom a message reaches when it is accepted: the addressee; the members of the team other
    /// than the sender; or the orchestrator and all team agents other than the sender.
    pub open spec fn recipients(self, sender: Option<AgentId>, address: AddressView) -> Seq<AgentId> {
        match address {
            AddressView::Direct { to } => seq![to],
            AddressView::Team { team } => match row(self.teams, team) {
                Some(members) => others(members, sender),
                None => Seq::empty(),
            },
            AddressView::Broadcast => others(
                Seq::new(
                    (self.team_agents.len() + 1) as nat,
                    |i: int|
                        if i == 0 {
                            AgentId::Orchestrator
                        } else {
                            self.team_agents[i - 1].id
                        },
                ),
                sender,
            ),
        }
    }

    /// The team agents at the start of a run.
    pub open spec fn crew(count: u32, at: EventId) -> Seq<MeterView> {
        Seq::new(
            count as nat,
            |i: int|
                MeterView {
                    id: AgentId::Team((i + 1) as u64),
                    state: MeterState::Idle,
                    specialty: "generalist"@,
                    idle_since: at,
                    malformed: 0,
                },
        )
    }

    /// The meters after an agent's turn.
    pub open spec fn with_turn(
        self,
        source: EventSource,
        tool_iters: u32,
        malformed: bool,
        at: EventId,
    ) -> MetricsView {
        match source {
            EventSource::Agent(agent) => match meter_at(self.team_agents, agent, 0) {
                Some(i) => {
                    let m = self.team_agents[i];
                    MetricsView {
                        team_agents: self.team_agents.update(
                            i,
                            MeterView {
                                malformed: if malformed {
                                    (m.malformed + 1) as u32
                                } else if tool_iters > 0 {
                                    0
                                } else {
                                    m.malformed
                                },
                                idle_since: if m.state is Idle {
                                    at
                                } else {
                                    m.idle_since
                                },
                                ..m
                            },
                        ),
                        ..self
                    }
                },
                None => self,
            },
            EventSource::System => self,
        }
    }

    /// Token totals after a turn.
    pub open spec fn with_usage(self, source: EventSource, usage: TurnUsage) -> MetricsView {
        let counts = Counts {
            tokens_total: (self.counts.tokens_total + usage.total) as u64,
            ..self.counts
        };
        match source {
            EventSource::Agent(agent) => MetricsView {
                counts,
                tokens_per_agent: with_row(
                    self.tokens_per_agent,
                    agent,
                    match row(self.tokens_per_agent, agent) {
                        Some(n) => (n + usage.total) as u64,
                        None => usage.total,
                    },
                ),
                ..self
            },
            EventSource::System => self.with_counts(counts),
        }
    }

    /// The agent has another specialty, and a new idle streak if it is idle.
    pub open spec fn with_persona(self, agent: AgentId, to: Seq<char>, at: EventId) -> MetricsView {
        match meter_at(self.team_agents, agent, 0) {
            Some(i) => {
                let m = self.team_agents[i];
                MetricsView {
                    team_agents: self.team_agents.update(
                        i,
                        MeterView {
                            specialty: to,
                            idle_since: if m.state is Idle {
                                at
                            } else {
                                m.idle_since
                            },
                            ..m
                        },
                    ),
                    ..self
                }
            },
            None => self,
        }
    }

    /// One more event seen.
    pub open spec fn seen(self, event: EventView) -> MetricsView {
        MetricsView {
            last_event_id: Some(event.id),
            first_at: if self.first_at is None {
                Some(event.at)
            } else {
                self.first_at
            },
            last_at: Some(event.at),
            ..self
        }
    }

    /// What an event changes beyond the log position.
    #[verifier::opaque]
    pub open spec fn folded(self, event: EventView) -> MetricsView {
        let c = self.counts;
        match event.kind {
            KindView::RunStarted { agents, meta_agents, parallel, .. } => {
                let started = MetricsView {
                    team_agent_count: agents,
                    meta_agent_count: meta_agents,
                    initial_parallelism: parallel,
                    team_agents: MetricsView::crew(agents, event.id),
                    ..self
                };
                if agents > 0 {
                    started.with_specialty("generalist"@)
                } else {
                    started
                }
            },
            KindView::RunFinished { reason, exit_code } => MetricsView {
                outcome: Some((reason, exit_code)),
                ..self
            },
            KindView::CapHit { .. } => self,
            KindView::TaskCreated { .. } => self.with_counts(
                Counts { tasks_created: (c.tasks_created + 1) as u64, ..c },
            ),
            KindView::TaskClaimed { task, .. } => MetricsView {
                claimed_at: with_row(self.claimed_at, task, event.id),
                ..self
            }.with_actor_state(event.source, MeterState::Working(task), event.id),
            KindView::TaskReleased { .. } => self.with_actor_state(
                event.source,
                MeterState::Idle,
                event.id,
            ),
            KindView::TaskUnassigned { prev_claimant, .. } => self.with_state(
                prev_claimant,
                MeterState::Idle,
                event.id,
            ),
            KindView::TaskCompleted { task, result, .. } => MetricsView {
                counts: Counts {
                    tasks_completed: (c.tasks_completed + 1) as u64,
                    ticks_since_done: 0,
                    knowledge_completions: (c.knowledge_completions + 1) as u64,
                    knowledge_bytes: (c.knowledge_bytes + byte_len(result)) as u64,
                    ..c
                },
                claimed_at: without_row(self.claimed_at, task),
                work_latencies: match row(self.claimed_at, task) {
                    Some(claimed) => self.work_latencies.push(
                        if event.id.0 >= claimed.0 {
                            (event.id.0 - claimed.0) as u64
                        } else {
                            0
                        },
                    ),
                    None => self.work_latencies,
                },
                ..self
            }.with_actor_state(event.source, MeterState::Idle, event.id),
            KindView::TaskCancelled { .. } => self.with_counts(
                Counts { tasks_cancelled: (c.tasks_cancelled + 1) as u64, ..c },
            ),
            KindView::MessageSent { message, address, body, .. } => {
                let to = self.recipients(event.source.actor(), address);
                MetricsView {
                    counts: Counts {
                        messages_total: (c.messages_total + 1) as u64,
                        messages_direct: if address is Direct {
                            (c.messages_direct + 1) as u64
                        } else {
                            c.messages_direct
                        },
                        messages_team: if address is Team {
                            (c.messages_team + 1) as u64
                        } else {
                            c.messages_team
                        },
                        messages_broadcast: if address is Broadcast {
                            (c.messages_broadcast + 1) as u64
                        } else {
                            c.messages_broadcast
                        },
                        knowledge_messages: (c.knowledge_messages + 1) as u64,
                        knowledge_bytes: (c.knowledge_bytes + byte_len(body)) as u64,
                        mailbox_max_depth: deepest_after(
                            self.pending,
                            to,
                            (message, event.id),
                            c.mailbox_max_depth,
                        ),
                        ..c
                    },
                    pending: queue_all(self.pending, to, (message, event.id)),
                    ..self
                }
            },
            KindView::MessagesDelivered { delivered } => match event.source {
                EventSource::Agent(who) => match row(self.pending, who) {
                    Some(queue) => MetricsView {
                        pending: with_row(self.pending, who, undelivered(queue, delivered)),
                        ..self
                    },
                    None => self,
                },
                EventSource::System => self,
            },
            KindView::KnowledgeWritten { text, .. } => self.with_counts(
                Counts {
                    knowledge_notes: (c.knowledge_notes + 1) as u64,
                    knowledge_bytes: (c.knowledge_bytes + byte_len(text)) as u64,
                    ..c
                },
            ),
            KindView::TurnCompleted { tool_iters, malformed, usage, .. } => {
                let used = self.with_usage(event.source, usage);
                let ticked = if event.source == EventSource::Agent(AgentId::Orchestrator) {
                    used.with_counts(
                        Counts {
                            ticks: (c.ticks + 1) as u64,
                            ticks_since_done: (c.ticks_since_done + 1) as u64,
                            ..used.counts
                        },
                    )
                } else {
                    used
                };
                ticked.with_turn(event.source, tool_iters, malformed, event.id)
            },
            KindView::AgentSlept { agent, .. } => self.with_counts(
                Counts { sleeps: (c.sleeps + 1) as u64, ..c },
            ).with_state(agent, MeterState::Asleep, event.id),
            KindView::AgentParked { agent, .. } => self.with_counts(
                Counts { parks: (c.parks + 1) as u64, ..c },
            ).with_state(agent, MeterState::Asleep, event.id),
            KindView::AgentWoke { agent, restored, .. } => self.with_counts(
                Counts { wakes: (c.wakes + 1) as u64, ..c },
            ).with_state(
                agent,
                match restored {
                    RestoredState::Working { task } => MeterState::Working(task),
                    RestoredState::Idle => MeterState::Idle,
                },
                event.id,
            ),
            KindView::ParallelismChanged { effective, .. } => MetricsView {
                parallelism_changes: self.parallelism_changes.push(effective),
                ..self
            },
            KindView::LivenessNudge { .. } => self.with_counts(
                Counts { liveness_nudges: (c.liveness_nudges + 1) as u64, ..c },
            ),
            KindView::TeamFormed { team, members } => MetricsView {
                teams: with_row(self.teams, team, members),
                ..self
            },
            KindView::TeamMembersSet { team, members, .. } => MetricsView {
                teams: with_row(self.teams, team, members),
                ..self
            },
            KindView::TeamDissolved { team } => MetricsView {
                teams: without_row(self.teams, team),
                ..self
            },
            KindView::AgentRespecialized { agent, from, to, .. } => MetricsView {
                respecializations: self.respecializations.push((agent, from, to)),
                ..self
            }.with_specialty(to).with_persona(agent, to, event.id),
            KindView::DirectiveIssued { tier, .. } => self.with_counts(
                Counts {
                    directives_issued: (c.directives_issued + 1) as u64,
                    directives_fulfilled: if tier is Mechanical {
                        (c.directives_fulfilled + 1) as u64
                    } else {
                        c.directives_fulfilled
                    },
                    ..c
                },
            ),
            KindView::DirectiveFulfilled { .. } => self.with_counts(
                Counts { directives_fulfilled: (c.directives_fulfilled + 1) as u64, ..c },
            ),
            KindView::DirectiveDeclined { .. } => self.with_counts(
                Counts { directives_declined: (c.directives_declined + 1) as u64, ..c },
            ),
            KindView::ContextDegraded { .. } => self,
        }
    }

    /// The accumulator after one more event.
    pub open spec fn fold(self, event: EventView) -> MetricsView {
        self.seen(event).folded(event)
    }
}

/// The accumulator after a whole log.
pub open spec fn fold_log(events: Seq<EventView>) -> MetricsView
    decreases events.len(),
{
    if events.len() == 0 {
        MetricsView::empty()
    } else {
        fold_log(events.drop_last()).fold(events.last())
    }
}

/// The accumulator.
#[derive(Debug)]
pub struct Metrics {
    team_agent_count: u32,
    meta_agent_count: u32,
    initial_parallelism: u32,
    last_event_id: Option<EventId>,
    first_at: Option<Timestamp>,
    last_at: Option<Timestamp>,
    counts: Counts,
    claimed_at: Vec<(TaskId, EventId)>,
    work_latencies: Vec<u64>,
    team_agents: Vec<AgentMeter>,
    pending: Vec<(AgentId, Vec<Waiting>)>,
    teams: Vec<(TeamId, Vec<AgentId>)>,
    respecializations: Vec<(AgentId, SpecialtySlug, SpecialtySlug)>,
    specialties_used: Vec<SpecialtySlug>,
    parallelism_changes: Vec<u32>,
    tokens_per_agent: Vec<(AgentId, u64)>,
    outcome: Option<(RunFinishReason, u8)>,
}

/// Slugs as texts.
pub open spec fn slug_texts(v: Seq<SpecialtySlug>) -> Seq<Seq<char>> {
    Seq::new(v.len(), |i: int| v[i]@)
}

/// Changes of specialty in specifications.
pub open spec fn change_texts(v: Seq<(AgentId, SpecialtySlug, SpecialtySlug)>) -> Seq<
    (AgentId, Seq<char>, Seq<char>),
> {
    Seq::new(v.len(), |i: int| (v[i].0, v[i].1@, v[i].2@))
}

/// Queues in specifications.
pub open spec fn queue_rows(v: Seq<(AgentId, Vec<Waiting>)>) -> Seq<(AgentId, Seq<Waiting>)> {
    Seq::new(v.len(), |i: int| (v[i].0, v[i].1@))
}

spec fn meter_views(v: Seq<AgentMeter>) -> Seq<MeterView> {
    Seq::new(v.len(), |i: int| v[i]@)
}

impl View for Metrics {
    type V = MetricsView;

    closed spec fn view(&self) -> MetricsView {
        MetricsView {
            team_agent_count: self.team_agent_count,
            meta_agent_count: self.meta_agent_count,
            initial_parallelism: self.initial_parallelism,
            last_event_id: self.last_event_id,
            first_at: self.first_at,
            last_at: self.last_at,
            counts: self.counts,
            claimed_at: self.claimed_at@,
            work_latencies: self.work_latencies@,
            team_agents: meter_views(self.team_agents@),
            pending: queue_rows(self.pending@),
            teams: team_rows(self.teams@),
            respecializations: change_texts(self.respecializations@),
            specialties_used: slug_texts(self.specialties_used@),
            parallelism_changes: self.parallelism_changes@,
            tokens_per_agent: self.tokens_per_agent@,
            outcome: self.outcome,
        }
    }
}

impl Default for Metrics {
    fn default() -> (m: Metrics)
        ensures
            m@ == MetricsView::empty(),
    {
        Metrics::new()
    }
}

impl Metrics {
    /// Nothing folded yet.
    pub fn new() -> (m: Metrics)
        ensures
            m@ == MetricsView::empty(),
    {
        let m = Metrics {
            team_agent_count: 0,
            meta_agent_count: 0,
            initial_parallelism: 0,
            last_event_id: None,
            first_at: None,
            last_at: None,
            counts: Counts {
                ticks: 0,
                ticks_since_done: 0,
                tasks_created: 0,
                tasks_completed: 0,
                tasks_cancelled: 0,
                messages_total: 0,
                messages_direct: 0,
                messages_team: 0,
                messages_broadcast: 0,
                mailbox_max_depth: 0,
                knowledge_messages: 0,
                knowledge_notes: 0,
                knowledge_completions: 0,
                knowledge_bytes: 0,
                sleeps: 0,
                wakes: 0,
                parks: 0,
                tokens_total: 0,
                directives_issued: 0,
                directives_fulfilled: 0,
                directives_declined: 0,
                liveness_nudges: 0,
            },
            claimed_at: Vec::new(),
            work_latencies: Vec::new(),
            team_agents: Vec::new(),
            pending: Vec::new(),
            teams: Vec::new(),
            respecializations: Vec::new(),
            specialties_used: Vec::new(),
            parallelism_changes: Vec::new(),
            tokens_per_agent: Vec::new(),
            outcome: None,
        };
        assert(m@ =~= MetricsView::empty());
        m
    }

    /// The position of an agent's meter.
    fn find_meter(&self, agent: AgentId) -> (r: Option<usize>)
        ensures
            match r {
                Some(i) => meter_at(self@.team_agents, agent, 0) == Some(i as int) && i
                    < self.team_agents.len(),
                None => meter_at(self@.team_agents, agent, 0) is None,
            },
    {
        let mut i: usize = 0;
        while i < self.team_agents.len()
            invariant
                0 <= i <= self.team_agents.len(),
                meter_at(self@.team_agents, agent, 0) == meter_at(
                    self@.team_agents,
                    agent,
                    i as int,
                ),
            decreases self.team_agents.len() - i,
        {
            if self.team_agents[i].id == agent {
                return Some(i);
            }
            i = i + 1;
        }
        None
    }

    fn set_state(&mut self, agent: AgentId, state: MeterState, at: EventId)
        ensures
            final(self)@ == old(self)@.with_state(agent, state, at),
    {
        if let Some(i) = self.find_meter(agent) {
            self.team_agents[i].state = state;
            if let MeterState::Idle = state {
                self.team_agents[i].idle_since = at;
            }
        }
        assert(self@ =~= old(self)@.with_state(agent, state, at));
    }

    fn set_actor_state(&mut self, source: EventSource, state: MeterState, at: EventId)
        ensures
            final(self)@ == old(self)@.with_actor_state(source, state, at),
    {
        if let EventSource::Agent(agent) = source {
            self.set_state(agent, state, at);
        }
    }

    fn note_specialty(&mut self, specialty: SpecialtySlug)
        ensures
            final(self)@ == old(self)@.with_specialty(specialty@),
    {
        let mut i: usize = 0;
        while i < self.specialties_used.len()
            invariant
                0 <= i <= self.specialties_used.len(),
                self@ == old(self)@,
                forall|k: int| 0 <= k < i ==> self@.specialties_used[k] != specialty@,
            decreases self.specialties_used.len() - i,
        {
            if same(self.specialties_used[i].as_str(), specialty.as_str()) {
                assert(self@.specialties_used[i as int] == specialty@);
                return ;
            }
            i = i + 1;
        }
        self.specialties_used.push(specialty);
        assert(self@ =~= old(self)@.with_specialty(specialty@));
    }

    fn fold_usage(&mut self, source: EventSource, usage: &TurnUsage)
        requires
            old(self)@.room(0, 0, usage.total as nat),
        ensures
            final(self)@ == old(self)@.with_usage(source, *usage),
    {
        self.counts.tokens_total = self.counts.tokens_total + usage.total;
        if let EventSource::Agent(agent) = source {
            match agent_row(&self.tokens_per_agent, agent) {
                Some(i) => {
                    assert(old(self)@.tokens_per_agent[i as int].1 + usage.total <= u64::MAX);
                    let total: u64 = self.tokens_per_agent[i].1 + usage.total;
                    self.tokens_per_agent.set(i, (agent, total));
                },
                None => {
                    self.tokens_per_agent.push((agent, usage.total));
                },
            }
        }
        assert(self@ =~= old(self)@.with_usage(source, *usage));
    }

    /// Whom a message reaches when it is accepted.
    fn recipients(&self, sender: Option<AgentId>, address: &Address) -> (r: Vec<AgentId>)
        ensures
            r@ == self@.recipients(sender, address@),
    {
        match address {
            Address::Direct { to } => {
                let mut r: Vec<AgentId> = Vec::new();
                r.push(*to);
                assert(r@ =~= seq![*to]);
                r
            },
            Address::Team { team } => match team_row(&self.teams, team) {
                Some(i) => without_sender(&self.teams[i].1, sender),
                None => Vec::new(),
            },
            Address::Broadcast => {
                let mut all: Vec<AgentId> = Vec::new();
                all.push(AgentId::Orchestrator);
                let mut i: usize = 0;
                while i < self.team_agents.len()
                    invariant
                        0 <= i <= self.team_agents.len(),
                        all.len() == i + 1,
                        all@[0] == AgentId::Orchestrator,
                        forall|k: int|
                            0 < k <= i ==> #[trigger] all@[k] == self@.team_agents[k - 1].id,
                    decreases self.team_agents.len() - i,
                {
                    all.push(self.team_agents[i].id);
                    i = i + 1;
                }
                assert(all@ =~= Seq::new(
                    (self@.team_agents.len() + 1) as nat,
                    |i: int|
                        if i == 0 {
                            AgentId::Orchestrator
                        } else {
                            self@.team_agents[i - 1].id
                        },
                ));
                without_sender(&all, sender)
            },
        }
    }

    /// Queues an item for one recipient.
    fn queue_one(&mut self, who: AgentId, item: Waiting)
        ensures
            final(self)@ == (MetricsView {
                pending: with_row(
                    old(self)@.pending,
                    who,
                    waiting_for(old(self)@.pending, who).push(item),
                ),
                counts: Counts {
                    mailbox_max_depth: if waiting_for(old(self)@.pending, who).len() + 1 > old(
                        self,
                    )@.counts.mailbox_max_depth {
                        (waiting_for(old(self)@.pending, who).len() + 1) as u64
                    } else {
                        old(self)@.counts.mailbox_max_depth
                    },
                    ..old(self)@.counts
                },
                ..old(self)@
            }),
    {
        let ghost rows = self.pending@;
        proof {
            lemma_same_keys(rows, queue_rows(rows), who, 0);
        }
        let depth: usize;
        match agent_row(&self.pending, who) {
            Some(i) => {
                self.pending[i].1.push(item);
                depth = self.pending[i].1.len();
            },
            None => {
                let mut queue: Vec<Waiting> = Vec::new();
                queue.push(item);
                self.pending.push((who, queue));
                depth = 1;
                assert(Seq::<Waiting>::empty().push(item) =~= queue@);
            },
        }
        if depth as u64 > self.counts.mailbox_max_depth {
            self.counts.mailbox_max_depth = depth as u64;
        }
        assert(self@.pending =~= with_row(
            old(self)@.pending,
            who,
            waiting_for(old(self)@.pending, who).push(item),
        ));
    }

    /// Queues an item for each recipient in turn.
    fn queue_for(&mut self, recipients: &Vec<AgentId>, item: Waiting)
        ensures
            final(self)@ == (MetricsView {
                pending: queue_all(old(self)@.pending, recipients@, item),
                counts: Counts {
                    mailbox_max_depth: deepest_after(
                        old(self)@.pending,
                        recipients@,
                        item,
                        old(self)@.counts.mailbox_max_depth,
                    ),
                    ..old(self)@.counts
                },
                ..old(self)@
            }),
    {
        let mut i: usize = 0;
        assert(recipients@.take(0) =~= Seq::<AgentId>::empty());
        while i < recipients.len()
            invariant
                0 <= i <= recipients.len(),
                self@ == (MetricsView {
                    pending: queue_all(old(self)@.pending, recipients@.take(i as int), item),
                    counts: Counts {
                        mailbox_max_depth: deepest_after(
                            old(self)@.pending,
                            recipients@.take(i as int),
                            item,
                            old(self)@.counts.mailbox_max_depth,
                        ),
                        ..old(self)@.counts
                    },
                    ..old(self)@
                }),
            decreases recipients.len() - i,
        {
            assert(recipients@.take(i + 1).drop_last() =~= recipients@.take(i as int));
            assert(recipients@.take(i + 1).last() == recipients@[i as int]);
            self.queue_one(recipients[i], item);
            i = i + 1;
        }
        assert(recipients@.take(i as int) =~= recipients@);
    }

    /// Takes delivered messages off a queue.
    fn unqueue(&mut self, source: EventSource, delivered: &Vec<MessageId>)
        ensures
            final(self)@ == (match source {
                EventSource::Agent(who) => match row(old(self)@.pending, who) {
                    Some(queue) => MetricsView {
                        pending: with_row(
                            old(self)@.pending,
                            who,
                            undelivered(queue, delivered@),
                        ),
                        ..old(self)@
                    },
                    None => old(self)@,
                },
                EventSource::System => old(self)@,
            }),
    {
        if let EventSource::Agent(who) = source {
            let ghost rows = self.pending@;
            proof {
                lemma_same_keys(rows, queue_rows(rows), who, 0);
            }
            if let Some(i) = agent_row(&self.pending, who) {
                let kept = keep_undelivered(&self.pending[i].1, delivered);
                self.pending.set(i, (who, kept));
                assert(self@ =~= (MetricsView {
                    pending: with_row(
                        old(self)@.pending,
                        who,
                        undelivered(row(old(self)@.pending, who)->0, delivered@),
                    ),
                    ..old(self)@
                }));
            }
        }
    }

    /// Counts an agent's turn.
    fn count_turn(&mut self, source: EventSource, tool_iters: u32, malformed: bool, at: EventId)
        requires
            forall|i: int|
                0 <= i < old(self)@.team_agents.len() ==> (
                #[trigger] old(self)@.team_agents[i]).malformed < u32::MAX,
        ensures
            final(self)@ == old(self)@.with_turn(source, tool_iters, malformed, at),
    {
        if let EventSource::Agent(agent) = source {
            if let Some(i) = self.find_meter(agent) {
                assert(self@.team_agents[i as int].malformed < u32::MAX);
                if malformed {
                    self.team_agents[i].consecutive_malformed =
                    self.team_agents[i].consecutive_malformed + 1;
                } else if tool_iters > 0 {
                    self.team_agents[i].consecutive_malformed = 0;
                }
                if let MeterState::Idle = self.team_agents[i].state {
                    self.team_agents[i].idle_since = at;
                }
            }
        }
        assert(self@ =~= old(self)@.with_turn(source, tool_iters, malformed, at));
    }

    /// Records the members of a team.
    fn set_team(&mut self, team: &TeamId, members: &Vec<AgentId>)
        ensures
            final(self)@ == (MetricsView {
                teams: with_row(old(self)@.teams, team@, members@),
                ..old(self)@
            }),
    {
        let list = copy_agents(members);
        match team_row(&self.teams, team) {
            Some(i) => {
                self.teams[i].1 = list;
            },
            None => {
                self.teams.push((team.clone(), list));
            },
        }
        assert(self@.teams =~= with_row(old(self)@.teams, team@, members@));
    }

    /// Forgets a team.
    fn unset_team(&mut self, team: &TeamId)
        ensures
            final(self)@ == (MetricsView {
                teams: without_row(old(self)@.teams, team@),
                ..old(self)@
            }),
    {
        if let Some(i) = team_row(&self.teams, team) {
            self.teams.remove(i);
        }
        assert(self@.teams =~= without_row(old(self)@.teams, team@));
    }

    /// The team agents at the start of a run.
    fn boot(&mut self, agents: u32, at: EventId)
        ensures
            final(self)@ == (MetricsView {
                team_agents: MetricsView::crew(agents, at),
                ..old(self)@
            }),
    {
        let mut crew: Vec<AgentMeter> = Vec::new();
        let mut n: u32 = 0;
        while n < agents
            invariant
                0 <= n <= agents,
                crew.len() == n,
                forall|k: int|
                    0 <= k < n ==> (#[trigger] crew@[k])@ == MetricsView::crew(agents, at)[k],
            decreases agents - n,
        {
            crew.push(
                AgentMeter {
                    id: AgentId::Team((n as u64) + 1),
                    state: MeterState::Idle,
                    specialty: SpecialtySlug::generalist(),
                    idle_since: at,
                    consecutive_malformed: 0,
                },
            );
            n = n + 1;
        }
        self.team_agents = crew;
        assert(self@.team_agents =~= MetricsView::crew(agents, at));
    }

    /// Gives an agent another specialty.
    fn set_persona(&mut self, agent: AgentId, to: &SpecialtySlug, at: EventId)
        ensures
            final(self)@ == old(self)@.with_persona(agent, to@, at),
    {
        if let Some(i) = self.find_meter(agent) {
            self.team_agents[i].specialty = to.clone();
            if let MeterState::Idle = self.team_agents[i].state {
                self.team_agents[i].idle_since = at;
            }
        }
        assert(self@ =~= old(self)@.with_persona(agent, to@, at));
    }

    /// Records that a task was completed.
    fn finish_task(&mut self, task: TaskId, at: EventId)
        ensures
            final(self)@ == (MetricsView {
                claimed_at: without_row(old(self)@.claimed_at, task),
                work_latencies: match row(old(self)@.claimed_at, task) {
                    Some(claimed) => old(self)@.work_latencies.push(
                        if at.0 >= claimed.0 {
                            (at.0 - claimed.0) as u64
                        } else {
                            0
                        },
                    ),
                    None => old(self)@.work_latencies,
                },
                ..old(self)@
            }),
    {
        if let Some(i) = task_row(&self.claimed_at, task) {
            let (_, claimed) = self.claimed_at.remove(i);
            let latency: u64 = if at.0 >= claimed.0 { at.0 - claimed.0 } else { 0 };
            self.work_latencies.push(latency);
        }
    }

    /// Whether `k` more events, `bytes` more bytes of knowledge and `tokens` more tokens can be
    /// counted.
    pub fn can_count(&self, k: u32, bytes: u64, tokens: u64) -> (b: bool)
        ensures
            b == self@.room(k as nat, bytes as nat, tokens as nat),
    {
        let c = self.counts;
        let most: u64 = u64::MAX - k as u64;
        let known: u128 = c.knowledge_messages as u128 + c.knowledge_notes as u128
            + c.knowledge_completions as u128;
        let counted = c.ticks <= most && c.ticks_since_done <= most && c.tasks_created <= most
            && c.tasks_completed <= most && c.tasks_cancelled <= most && c.messages_total <= most
            && c.messages_direct <= most && c.messages_team <= most && c.messages_broadcast <= most
            && known <= most as u128 && c.knowledge_bytes <= u64::MAX - bytes && c.sleeps <= most
            && c.wakes <= most && c.parks <= most && c.tokens_total <= u64::MAX - tokens
            && c.directives_issued <= most && c.directives_fulfilled <= most
            && c.directives_declined <= most && c.liveness_nudges <= most;
        if !counted {
            return false;
        }
        let mut i: usize = 0;
        while i < self.team_agents.len()
            invariant
                0 <= i <= self.team_agents.len(),
                forall|j: int|
                    0 <= j < i ==> (#[trigger] self@.team_agents[j]).malformed + k <= u32::MAX,
            decreases self.team_agents.len() - i,
        {
            assert(self@.team_agents[i as int].malformed
                == self.team_agents@[i as int].consecutive_malformed);
            if self.team_agents[i].consecutive_malformed > u32::MAX - k {
                return false;
            }
            i = i + 1;
        }
        let mut j: usize = 0;
        while j < self.tokens_per_agent.len()
            invariant
                0 <= j <= self.tokens_per_agent.len(),
                forall|n: int|
                    0 <= n < j ==> (#[trigger] self@.tokens_per_agent[n]).1 + tokens <= u64::MAX,
            decreases self.tokens_per_agent.len() - j,
        {
            assert(self@.tokens_per_agent[j as int].1 == self.tokens_per_agent@[j as int].1);
            if self.tokens_per_agent[j].1 > u64::MAX - tokens {
                return false;
            }
            j = j + 1;
        }
        true
    }

    /// Whether one more event can be counted.
    pub fn has_room(&self, event: &Event) -> (b: bool)
        ensures
            b == self@.room(1, event_bytes(event.kind@), event_tokens(event.kind@)),
    {
        let bytes: u64 = match &event.kind {
            EventKind::TaskCompleted { result, .. } => bytes_in(result.as_str()) as u64,
            EventKind::MessageSent { body, .. } => bytes_in(body.as_str()) as u64,
            EventKind::KnowledgeWritten { text, .. } => bytes_in(text.as_str()) as u64,
            _ => 0,
        };
        let tokens: u64 = match &event.kind {
            EventKind::TurnCompleted { usage, .. } => usage.total,
            _ => 0,
        };
        self.can_count(1, bytes, tokens)
    }

    /// Folds one more event.
    #[verifier::rlimit(40)]
    pub fn fold(&mut self, event: &Event)
        requires
            old(self)@.room(1, event_bytes(event.kind@), event_tokens(event.kind@)),
        ensures
            final(self)@ == old(self)@.fold(event@),
    {
        self.last_event_id = Some(event.id);
        if self.first_at.is_none() {
            self.first_at = Some(event.at);
        }
        self.last_at = Some(event.at);
        let ghost seen = old(self)@.seen(event@);
        assert(self@ =~= seen);
        proof {
            reveal(MetricsView::folded);
        }
        match &event.kind {
            EventKind::RunStarted { agents, meta_agents, parallel, .. } => {
                self.team_agent_count = *agents;
                self.meta_agent_count = *meta_agents;
                self.initial_parallelism = *parallel;
                self.boot(*agents, event.id);
                if *agents > 0 {
                    self.note_specialty(SpecialtySlug::generalist());
                }
            },
            EventKind::RunFinished { reason, exit_code } => {
                self.outcome = Some((*reason, *exit_code));
            },
            EventKind::CapHit { .. } => {},
            EventKind::TaskCreated { .. } => {
                self.counts.tasks_created = self.counts.tasks_created + 1;
            },
            EventKind::TaskClaimed { task, .. } => {
                put_task(&mut self.claimed_at, *task, event.id);
                assert(self@ =~= (MetricsView {
                    claimed_at: with_row(seen.claimed_at, *task, event.id),
                    ..seen
                }));
                self.set_actor_state(event.source, MeterState::Working(*task), event.id);
            },
            EventKind::TaskReleased { .. } => {
                self.set_actor_state(event.source, MeterState::Idle, event.id);
            },
            EventKind::TaskUnassigned { prev_claimant, .. } => {
                self.set_state(*prev_claimant, MeterState::Idle, event.id);
            },
            EventKind::TaskCompleted { task, result, .. } => {
                self.counts.tasks_completed = self.counts.tasks_completed + 1;
                self.counts.ticks_since_done = 0;
                self.counts.knowledge_completions = self.counts.knowledge_completions + 1;
                self.counts.knowledge_bytes = self.counts.knowledge_bytes + bytes_in(
                    result.as_str(),
                ) as u64;
                self.finish_task(*task, event.id);
                self.set_actor_state(event.source, MeterState::Idle, event.id);
            },
            EventKind::TaskCancelled { .. } => {
                self.counts.tasks_cancelled = self.counts.tasks_cancelled + 1;
            },
            EventKind::MessageSent { message, address, body, .. } => {
                self.counts.messages_total = self.counts.messages_total + 1;
                match address {
                    Address::Direct { .. } => {
                        self.counts.messages_direct = self.counts.messages_direct + 1;
                    },
                    Address::Team { .. } => {
                        self.counts.messages_team = self.counts.messages_team + 1;
                    },
                    Address::Broadcast => {
                        self.counts.messages_broadcast = self.counts.messages_broadcast + 1;
                    },
                }
                self.counts.knowledge_messages = self.counts.knowledge_messages + 1;
                self.counts.knowledge_bytes = self.counts.knowledge_bytes + bytes_in(
                    body.as_str(),
                ) as u64;
                let to = self.recipients(event.source.agent(), address);
                assert(to@ == seen.recipients(event.source.actor(), address@));
                self.queue_for(&to, (*message, event.id));
            },
            EventKind::MessagesDelivered { delivered } => {
                self.unqueue(event.source, delivered);
            },
            EventKind::KnowledgeWritten { text, .. } => {
                self.counts.knowledge_notes = self.counts.knowledge_notes + 1;
                self.counts.knowledge_bytes = self.counts.knowledge_bytes + bytes_in(
                    text.as_str(),
                ) as u64;
            },
            EventKind::TurnCompleted { tool_iters, malformed, usage, .. } => {
                self.fold_usage(event.source, usage);
                if let EventSource::Agent(AgentId::Orchestrator) = event.source {
                    self.counts.ticks = self.counts.ticks + 1;
                    self.counts.ticks_since_done = self.counts.ticks_since_done + 1;
                }
                self.count_turn(event.source, *tool_iters, *malformed, event.id);
            },
            EventKind::AgentSlept { agent, .. } => {
                self.counts.sleeps = self.counts.sleeps + 1;
                self.set_state(*agent, MeterState::Asleep, event.id);
            },
            EventKind::AgentParked { agent, .. } => {
                self.counts.parks = self.counts.parks + 1;
                self.set_state(*agent, MeterState::Asleep, event.id);
            },
            EventKind::AgentWoke { agent, restored, .. } => {
                self.counts.wakes = self.counts.wakes + 1;
                let state = match restored {
                    RestoredState::Working { task } => MeterState::Working(*task),
                    RestoredState::Idle => MeterState::Idle,
                };
                self.set_state(*agent, state, event.id);
            },
            EventKind::ParallelismChanged { effective, .. } => {
                self.parallelism_changes.push(*effective);
            },
            EventKind::LivenessNudge { .. } => {
                self.counts.liveness_nudges = self.counts.liveness_nudges + 1;
            },
            EventKind::TeamFormed { team, members } => {
                self.set_team(team, members);
            },
            EventKind::TeamMembersSet { team, members, .. } => {
                self.set_team(team, members);
            },
            EventKind::TeamDissolved { team } => {
                self.unset_team(team);
            },
            EventKind::AgentRespecialized { agent, from, to, .. } => {
                self.respecializations.push((*agent, from.clone(), to.clone()));
                assert(self@ =~= (MetricsView {
                    respecializations: seen.respecializations.push((*agent, from@, to@)),
                    ..seen
                }));
                self.note_specialty(to.clone());
                self.set_persona(*agent, to, event.id);
            },
            EventKind::DirectiveIssued { tier, .. } => {
                self.counts.directives_issued = self.counts.directives_issued + 1;
                if let DirectiveTier::Mechanical = tier {
                    self.counts.directives_fulfilled = self.counts.directives_fulfilled + 1;
                }
            },
            EventKind::DirectiveFulfilled { .. } => {
                self.counts.directives_fulfilled = self.counts.directives_fulfilled + 1;
            },
            EventKind::DirectiveDeclined { .. } => {
                self.counts.directives_declined = self.counts.directives_declined + 1;
            },
            EventKind::ContextDegraded { .. } => {},
        }
        assert(self@ =~= seen.folded(event@));
    }
}

/// Whether a message is among the delivered ones.
fn was_delivered(delivered: &Vec<MessageId>, id: MessageId) -> (b: bool)
    ensures
        b == delivered@.contains(id),
{
    let mut i: usize = 0;
    while i < delivered.len()
        invariant
            0 <= i <= delivered.len(),
            forall|k: int| 0 <= k < i ==> delivered@[k] != id,
        decreases delivered.len() - i,
    {
        if delivered[i] == id {
            assert(delivered@[i as int] == id);
            return true;
        }
        i = i + 1;
    }
    false
}

/// What of a queue was not delivered.
fn keep_undelivered(queue: &Vec<Waiting>, delivered: &Vec<MessageId>) -> (r: Vec<Waiting>)
    ensures
        r@ == undelivered(queue@, delivered@),
{
    let mut r: Vec<Waiting> = Vec::new();
    let mut i: usize = 0;
    assert(queue@.take(0) =~= Seq::<Waiting>::empty());
    while i < queue.len()
        invariant
            0 <= i <= queue.len(),
            r@ == undelivered(queue@.take(i as int), delivered@),
        decreases queue.len() - i,
    {
        assert(queue@.take(i + 1).drop_last() =~= queue@.take(i as int));
        assert(queue@.take(i + 1).last() == queue@[i as int]);
        if !was_delivered(delivered, queue[i].0) {
            r.push(queue[i]);
        }
        i = i + 1;
    }
    assert(queue@.take(i as int) =~= queue@);
    r
}

// ---------------------------------------------------------------------------
// Projections.
// ---------------------------------------------------------------------------

/// The length of the longest queue.
pub open spec fn deepest(pending: Seq<(AgentId, Seq<Waiting>)>) -> nat
    decreases pending.len(),
{
    if pending.len() == 0 {
        0
    } else {
        let before = deepest(pending.drop_last());
        if pending.last().1.len() > before {
            pending.last().1.len()
        } else {
            before
        }
    }
}

/// How many event ids ago something happened.
pub open spec fn age(now: u64, then: EventId) -> u64 {
    if now >= then.0 {
        (now - then.0) as u64
    } else {
        0
    }
}

/// The age of the oldest item of a queue.
pub open spec fn oldest_in(queue: Seq<Waiting>, now: u64) -> u64
    decreases queue.len(),
{
    if queue.len() == 0 {
        0
    } else {
        let before = oldest_in(queue.drop_last(), now);
        if age(now, queue.last().1) > before {
            age(now, queue.last().1)
        } else {
            before
        }
    }
}

/// The age of the oldest item of any queue.
pub open spec fn oldest_pending(pending: Seq<(AgentId, Seq<Waiting>)>, now: u64) -> u64
    decreases pending.len(),
{
    if pending.len() == 0 {
        0
    } else {
        let before = oldest_pending(pending.drop_last(), now);
        if oldest_in(pending.last().1, now) > before {
            oldest_in(pending.last().1, now)
        } else {
            before
        }
    }
}

/// How many of the agents are working, idle and asleep.
pub open spec fn state_tally(meters: Seq<MeterView>) -> (nat, nat, nat)
    decreases meters.len(),
{
    if meters.len() == 0 {
        (0, 0, 0)
    } else {
        let (w, i, a) = state_tally(meters.drop_last());
        match meters.last().state {
            MeterState::Working(_) => (w + 1, i, a),
            MeterState::Idle => (w, i + 1, a),
            MeterState::Asleep => (w, i, a + 1),
        }
    }
}

/// Every agent is counted once.
pub proof fn tally_counts_everyone(meters: Seq<MeterView>)
    ensures
        state_tally(meters).0 + state_tally(meters).1 + state_tally(meters).2 == meters.len(),
    decreases meters.len(),
{
    if meters.len() > 0 {
        tally_counts_everyone(meters.drop_last());
    }
}

/// A number put in its place in an ascending sequence.
pub open spec fn slotted(s: Seq<u64>, x: u64) -> Seq<u64>
    decreases s.len(),
{
    if s.len() == 0 || s.last() <= x {
        s.push(x)
    } else {
        slotted(s.drop_last(), x).push(s.last())
    }
}

/// The numbers in ascending order.
pub open spec fn ascending(s: Seq<u64>) -> Seq<u64>
    decreases s.len(),
{
    if s.len() == 0 {
        Seq::empty()
    } else {
        slotted(ascending(s.drop_last()), s.last())
    }
}

/// Each number is at most the next.
pub open spec fn is_ascending(s: Seq<u64>) -> bool {
    forall|i: int, j: int| 0 <= i <= j < s.len() ==> s[i] <= s[j]
}

proof fn lemma_slotted(s: Seq<u64>, x: u64)
    requires
        is_ascending(s),
    ensures
        is_ascending(slotted(s, x)),
        slotted(s, x).len() == s.len() + 1,
        slotted(s, x).to_multiset() =~= s.to_multiset().insert(x),
        forall|y: u64|
            #![trigger slotted(s, x).contains(y)]
            slotted(s, x).contains(y) ==> y == x || s.contains(y),
    decreases s.len(),
{
    broadcast use vstd::seq_lib::group_to_multiset_ensures;

    let r = slotted(s, x);
    if s.len() == 0 || s.last() <= x {
        assert(r == s.push(x));
        assert forall|y: u64| #[trigger] r.contains(y) implies y == x || s.contains(y) by {
            let i = choose|i: int| 0 <= i < r.len() && r[i] == y;
            if i < s.len() {
                assert(s[i] == y);
            }
        }
    } else {
        let init = s.drop_last();
        lemma_slotted(init, x);
        let t = slotted(init, x);
        assert(r == t.push(s.last()));
        assert forall|i: int| 0 <= i < t.len() implies t[i] <= s.last() by {
            assert(t.contains(t[i]));
            if t[i] != x {
                let k = choose|k: int| 0 <= k < init.len() && init[k] == t[i];
                assert(s[k] <= s[s.len() - 1]);
            }
        }
        assert(s =~= init.push(s.last()));
        assert forall|y: u64| #[trigger] r.contains(y) implies y == x || s.contains(y) by {
            let i = choose|i: int| 0 <= i < r.len() && r[i] == y;
            if i < t.len() {
                assert(t.contains(y));
                if y != x {
                    let k = choose|k: int| 0 <= k < init.len() && init[k] == y;
                    assert(s[k] == y);
                }
            } else {
                assert(s[s.len() - 1] == y);
            }
        }
    }
}

/// Sorting gives an ascending sequence of the same numbers.
pub proof fn sorts(s: Seq<u64>)
    ensures
        is_ascending(ascending(s)),
        ascending(s).len() == s.len(),
        ascending(s).to_multiset() =~= s.to_multiset(),
    decreases s.len(),
{
    broadcast use vstd::seq_lib::group_to_multiset_ensures;

    if s.len() > 0 {
        sorts(s.drop_last());
        lemma_slotted(ascending(s.drop_last()), s.last());
        assert(s =~= s.drop_last().push(s.last()));
    }
}

/// The middle number; of two middle ones their mean, rounded down.
pub open spec fn median(s: Seq<u64>) -> Option<u64> {
    let sorted = ascending(s);
    let mid = sorted.len() as int / 2;
    if sorted.len() == 0 {
        None
    } else if sorted.len() % 2 == 1 {
        Some(sorted[mid])
    } else {
        Some(((sorted[mid - 1] + sorted[mid]) / 2) as u64)
    }
}

/// Token counts: bare below a thousand, else thousands with one decimal place and a `k`.
pub open spec fn tokens_text(n: nat) -> Seq<char> {
    if n >= 1000 {
        one_place(scaled(n, 10)) + "k"@
    } else {
        dec(n)
    }
}

/// The short form of a handle: `a3` for `agent-3`.
pub open spec fn short_text(agent: AgentId) -> Seq<char> {
    match agent {
        AgentId::Team(n) => "a"@ + dec(n as nat),
        _ => agent.handle(),
    }
}

/// Renders a token count.
pub fn fmt_tokens(n: u64) -> (s: String)
    ensures
        s@ == tokens_text(n as nat),
{
    if n >= 1000 {
        let tenths = scale_thousandths(n, 10);
        let mut s = wide_text(tenths / 10);
        s.push_str(".");
        s.push_str(wide_text(tenths % 10).as_str());
        s.push_str("k");
        s
    } else {
        dec_text(n)
    }
}

/// Renders a wide number in decimal.
fn wide_text(n: u128) -> (s: String)
    ensures
        s@ == dec(n as nat),
    decreases n,
{
    if n < 10 {
        dec_text(n as u64)
    } else {
        let mut s = wide_text(n / 10);
        s.push((('0' as u8) + ((n % 10) as u8)) as char);
        s
    }
}

/// The short form of a handle.
fn short_handle(agent: &AgentId) -> (s: String)
    ensures
        s@ == short_text(*agent),
{
    match *agent {
        AgentId::Team(n) => {
            let mut s = "a".to_owned();
            s.push_str(dec_text(n).as_str());
            s
        },
        _ => agent.as_str(),
    }
}

impl MetricsView {
    /// The number of the last event, zero before any.
    pub open spec fn events(self) -> u64 {
        match self.last_event_id {
            Some(id) => id.0,
            None => 0,
        }
    }

    /// `run-health: done <d>/<n> · agents <w>W/<i>I/<s>S · mailbox depth <cur> (max <max>) ·
    /// ticks-since-done <t>`
    pub open spec fn health(self) -> Seq<char> {
        let (w, i, a) = state_tally(self.team_agents);
        "run-health: done "@ + dec(self.counts.tasks_completed as nat) + "/"@ + dec(
            self.counts.tasks_created as nat,
        ) + " · agents "@ + dec(w) + "W/"@ + dec(i) + "I/"@ + dec(a) + "S · mailbox depth "@ + dec(
            deepest(self.pending),
        ) + " (max "@ + dec(self.counts.mailbox_max_depth as nat) + ") · ticks-since-done "@ + dec(
            self.counts.ticks_since_done as nat,
        )
    }

    /// The latency clause of the digest.
    pub open spec fn latency(self) -> Seq<char> {
        match median(self.work_latencies) {
            None => "work n/a"@,
            Some(m) => "work median "@ + dec(m as nat) + " EventIds"@,
        }
    }

    /// The utilization line of an agent.
    pub open spec fn utilization(self, m: MeterView) -> Seq<char> {
        match m.state {
            MeterState::Working(task) => "  - "@ + m.id.handle() + ": Working (task "@ + dec(
                task.0 as nat,
            ) + "), "@ + m.specialty,
            MeterState::Idle => "  - "@ + m.id.handle() + ": Idle, "@ + m.specialty + " (idle "@
                + dec(age(self.events(), m.idle_since) as nat) + ")"@,
            MeterState::Asleep => "  - "@ + m.id.handle() + ": Asleep, "@ + m.specialty,
        }
    }

    /// The first digest lines: throughput, then the utilization of the first `n` agents.
    pub open spec fn digest_head(self, n: int) -> Seq<Seq<char>>
        decreases n,
    {
        if n <= 0 {
            Seq::empty().push(
                "throughput: "@ + dec(self.counts.tasks_completed as nat) + " task_completed / "@
                    + dec(self.events() as nat) + " EventIds · latency: "@ + self.latency(),
            ).push("utilization:"@)
        } else {
            self.digest_head(n - 1).push(self.utilization(self.team_agents[n - 1]))
        }
    }

    /// Short handle and malformed turns in a row of the first `n` agents.
    pub open spec fn malformed_list(self, n: int) -> Seq<Seq<char>>
        decreases n,
    {
        if n <= 0 {
            Seq::empty()
        } else {
            self.malformed_list(n - 1).push(
                short_text(self.team_agents[n - 1].id) + ":"@ + dec(
                    self.team_agents[n - 1].malformed as nat,
                ),
            )
        }
    }

    /// The digest that a meta-agent sees.
    pub open spec fn digest_text(self) -> Seq<char> {
        joined(
            self.digest_head(self.team_agents.len() as int).push(
                "mailbox: depth "@ + dec(deepest(self.pending)) + ", max "@ + dec(
                    self.counts.mailbox_max_depth as nat,
                ) + ", oldest-pending-age "@ + dec(
                    oldest_pending(self.pending, self.events()) as nat,
                ),
            ).push(
                "tokens: run "@ + tokens_text(self.counts.tokens_total as nat)
                    + " · faults: parks "@ + dec(self.counts.parks as nat) + ", malformed["@
                    + joined(self.malformed_list(self.team_agents.len() as int), " "@)
                    + "] · directives: issued "@ + dec(self.counts.directives_issued as nat)
                    + "/ful "@ + dec(self.counts.directives_fulfilled as nat) + "/dec "@ + dec(
                    self.counts.directives_declined as nat,
                ),
            ),
            "\n"@,
        )
    }

    /// Milliseconds from the first event to the last.
    pub open spec fn wall(self) -> int {
        match (self.first_at, self.last_at) {
            (Some(first), Some(last)) => {
                let d = last.millis - first.millis;
                if d > i64::MAX {
                    i64::MAX as int
                } else if d < i64::MIN {
                    i64::MIN as int
                } else {
                    d
                }
            },
            _ => 0,
        }
    }

    /// The tokens of an agent.
    pub open spec fn tokens_of(self, agent: AgentId) -> u64 {
        match row(self.tokens_per_agent, agent) {
            Some(n) => n,
            None => 0,
        }
    }

    /// All agents in handle order: the orchestrator, the team agents, the meta-agents.
    pub open spec fn roll(self) -> Seq<AgentId> {
        Seq::new(
            (1 + self.team_agent_count + self.meta_agent_count) as nat,
            |i: int|
                if i == 0 {
                    AgentId::Orchestrator
                } else if i <= self.team_agent_count {
                    AgentId::Team(i as u64)
                } else {
                    AgentId::Meta((i - self.team_agent_count) as u64)
                },
        )
    }
}

impl Metrics {
    fn events(&self) -> (n: u64)
        ensures
            n == self@.events(),
    {
        match self.last_event_id {
            Some(id) => id.0,
            None => 0,
        }
    }

    /// The length of the longest queue of undelivered messages.
    fn mailbox_depth(&self) -> (n: u64)
        ensures
            n == deepest(self@.pending),
    {
        let mut n: usize = 0;
        let mut i: usize = 0;
        assert(self@.pending.take(0) =~= Seq::<(AgentId, Seq<Waiting>)>::empty());
        while i < self.pending.len()
            invariant
                0 <= i <= self.pending.len(),
                n == deepest(self@.pending.take(i as int)),
            decreases self.pending.len() - i,
        {
            assert(self@.pending.take(i + 1).drop_last() =~= self@.pending.take(i as int));
            if self.pending[i].1.len() > n {
                n = self.pending[i].1.len();
            }
            i = i + 1;
        }
        assert(self@.pending.take(i as int) =~= self@.pending);
        n as u64
    }

    /// The age of the oldest undelivered message, in event ids.
    fn oldest_pending_age(&self) -> (n: u64)
        ensures
            n == oldest_pending(self@.pending, self@.events()),
    {
        let now = self.events();
        let mut n: u64 = 0;
        let mut i: usize = 0;
        assert(self@.pending.take(0) =~= Seq::<(AgentId, Seq<Waiting>)>::empty());
        while i < self.pending.len()
            invariant
                0 <= i <= self.pending.len(),
                n == oldest_pending(self@.pending.take(i as int), now),
            decreases self.pending.len() - i,
        {
            assert(self@.pending.take(i + 1).drop_last() =~= self@.pending.take(i as int));
            let a = oldest_age(&self.pending[i].1, now);
            if a > n {
                n = a;
            }
            i = i + 1;
        }
        assert(self@.pending.take(i as int) =~= self@.pending);
        n
    }

    /// How many team agents are working, idle and asleep.
    pub fn state_counts(&self) -> (r: (usize, usize, usize))
        ensures
            (r.0 as nat, r.1 as nat, r.2 as nat) == state_tally(self@.team_agents),
    {
        let mut working: usize = 0;
        let mut idle: usize = 0;
        let mut asleep: usize = 0;
        let mut i: usize = 0;
        assert(self@.team_agents.take(0) =~= Seq::<MeterView>::empty());
        while i < self.team_agents.len()
            invariant
                0 <= i <= self.team_agents.len(),
                (working as nat, idle as nat, asleep as nat) == state_tally(
                    self@.team_agents.take(i as int),
                ),
                working + idle + asleep == i,
            decreases self.team_agents.len() - i,
        {
            assert(self@.team_agents.take(i + 1).drop_last() =~= self@.team_agents.take(i as int));
            match self.team_agents[i].state {
                MeterState::Working(_) => {
                    working = working + 1;
                },
                MeterState::Idle => {
                    idle = idle + 1;
                },
                MeterState::Asleep => {
                    asleep = asleep + 1;
                },
            }
            i = i + 1;
        }
        assert(self@.team_agents.take(i as int) =~= self@.team_agents);
        (working, idle, asleep)
    }

    /// The median time from claim to completion, in event ids.
    pub fn work_latency_median(&self) -> (r: Option<u64>)
        ensures
            r == median(self@.work_latencies),
    {
        let sorted = sort(&self.work_latencies);
        let n: usize = sorted.len();
        if n == 0 {
            None
        } else if n % 2 == 1 {
            Some(sorted[n / 2])
        } else {
            let sum: u128 = sorted[n / 2 - 1] as u128 + sorted[n / 2] as u128;
            Some((sum / 2) as u64)
        }
    }

    /// The one-line steering view that ends the orchestrator's board digest.
    pub fn run_health_line(&self) -> (s: String)
        ensures
            s@ == self@.health(),
    {
        let (working, idle, asleep) = self.state_counts();
        let mut s = "run-health: done ".to_owned();
        s.push_str(dec_text(self.counts.tasks_completed).as_str());
        s.push_str("/");
        s.push_str(dec_text(self.counts.tasks_created).as_str());
        s.push_str(" · agents ");
        s.push_str(dec_text(working as u64).as_str());
        s.push_str("W/");
        s.push_str(dec_text(idle as u64).as_str());
        s.push_str("I/");
        s.push_str(dec_text(asleep as u64).as_str());
        s.push_str("S · mailbox depth ");
        s.push_str(dec_text(self.mailbox_depth()).as_str());
        s.push_str(" (max ");
        s.push_str(dec_text(self.counts.mailbox_max_depth).as_str());
        s.push_str(") · ticks-since-done ");
        s.push_str(dec_text(self.counts.ticks_since_done).as_str());
        s
    }

    fn latency_text(&self) -> (s: String)
        ensures
            s@ == self@.latency(),
    {
        match self.work_latency_median() {
            None => "work n/a".to_owned(),
            Some(m) => {
                let mut s = "work median ".to_owned();
                s.push_str(dec_text(m).as_str());
                s.push_str(" EventIds");
                s
            },
        }
    }

    fn utilization_line(&self, i: usize) -> (s: String)
        requires
            i < self.team_agents.len(),
        ensures
            s@ == self@.utilization(self@.team_agents[i as int]),
    {
        let meter = &self.team_agents[i];
        let mut s = "  - ".to_owned();
        s.push_str(meter.id.as_str().as_str());
        match meter.state {
            MeterState::Working(task) => {
                s.push_str(": Working (task ");
                s.push_str(dec_text(task.0).as_str());
                s.push_str("), ");
                s.push_str(meter.specialty.as_str());
            },
            MeterState::Idle => {
                s.push_str(": Idle, ");
                s.push_str(meter.specialty.as_str());
                s.push_str(" (idle ");
                let now = self.events();
                let k: u64 = if now >= meter.idle_since.0 { now - meter.idle_since.0 } else { 0 };
                s.push_str(dec_text(k).as_str());
                s.push_str(")");
            },
            MeterState::Asleep => {
                s.push_str(": Asleep, ");
                s.push_str(meter.specialty.as_str());
            },
        }
        s
    }

    /// Short handle and malformed turns in a row of each team agent.
    fn malformed_text(&self) -> (s: String)
        ensures
            s@ == joined(self@.malformed_list(self@.team_agents.len() as int), " "@),
    {
        let mut parts = no_lines();
        let mut i: usize = 0;
        while i < self.team_agents.len()
            invariant
                0 <= i <= self.team_agents.len(),
                texts(parts@) == self@.malformed_list(i as int),
            decreases self.team_agents.len() - i,
        {
            let mut part = short_handle(&self.team_agents[i].id);
            part.push_str(":");
            part.push_str(dec_text(self.team_agents[i].consecutive_malformed as u64).as_str());
            push_line(&mut parts, part);
            i = i + 1;
        }
        join(&parts, " ")
    }

    /// The full process view that a meta-agent sees.
    pub fn digest(&self) -> (s: String)
        ensures
            s@ == self@.digest_text(),
    {
        let mut lines = no_lines();
        let mut first = "throughput: ".to_owned();
        first.push_str(dec_text(self.counts.tasks_completed).as_str());
        first.push_str(" task_completed / ");
        first.push_str(dec_text(self.events()).as_str());
        first.push_str(" EventIds · latency: ");
        first.push_str(self.latency_text().as_str());
        push_line(&mut lines, first);
        push_line(&mut lines, "utilization:".to_owned());
        let mut i: usize = 0;
        while i < self.team_agents.len()
            invariant
                0 <= i <= self.team_agents.len(),
                texts(lines@) == self@.digest_head(i as int),
            decreases self.team_agents.len() - i,
        {
            push_line(&mut lines, self.utilization_line(i));
            i = i + 1;
        }
        let mut mailbox = "mailbox: depth ".to_owned();
        mailbox.push_str(dec_text(self.mailbox_depth()).as_str());
        mailbox.push_str(", max ");
        mailbox.push_str(dec_text(self.counts.mailbox_max_depth).as_str());
        mailbox.push_str(", oldest-pending-age ");
        mailbox.push_str(dec_text(self.oldest_pending_age()).as_str());
        push_line(&mut lines, mailbox);
        let mut tokens = "tokens: run ".to_owned();
        tokens.push_str(fmt_tokens(self.counts.tokens_total).as_str());
        tokens.push_str(" · faults: parks ");
        tokens.push_str(dec_text(self.counts.parks).as_str());
        tokens.push_str(", malformed[");
        tokens.push_str(self.malformed_text().as_str());
        tokens.push_str("] · directives: issued ");
        tokens.push_str(dec_text(self.counts.directives_issued).as_str());
        tokens.push_str("/ful ");
        tokens.push_str(dec_text(self.counts.directives_fulfilled).as_str());
        tokens.push_str("/dec ");
        tokens.push_str(dec_text(self.counts.directives_declined).as_str());
        push_line(&mut lines, tokens);
        join(&lines, "\n")
    }

    /// Milliseconds from the first event to the last.
    fn wall_ms(&self) -> (ms: i64)
        ensures
            ms == self@.wall(),
    {
        match (self.first_at, self.last_at) {
            (Some(first), Some(last)) => {
                let d: i128 = last.millis as i128 - first.millis as i128;
                if d > i64::MAX as i128 {
                    i64::MAX
                } else if d < i64::MIN as i128 {
                    i64::MIN
                } else {
                    d as i64
                }
            },
            _ => 0,
        }
    }

    /// The tokens of an agent.
    fn tokens_used(&self, agent: AgentId) -> (n: u64)
        ensures
            n == self@.tokens_of(agent),
    {
        match agent_row(&self.tokens_per_agent, agent) {
            Some(i) => self.tokens_per_agent[i].1,
            None => 0,
        }
    }

    /// The tokens of every agent in handle order.
    fn token_list(&self) -> (r: Vec<(AgentId, u64)>)
        ensures
            r@.len() == self@.roll().len(),
            forall|i: int|
                0 <= i < r@.len() ==> #[trigger] r@[i] == (
                    self@.roll()[i],
                    self@.tokens_of(self@.roll()[i]),
                ),
    {
        let mut r: Vec<(AgentId, u64)> = Vec::new();
        r.push((AgentId::Orchestrator, self.tokens_used(AgentId::Orchestrator)));
        let mut n: u32 = 0;
        while n < self.team_agent_count
            invariant
                0 <= n <= self.team_agent_count,
                r.len() == n + 1,
                forall|i: int|
                    0 <= i < r@.len() ==> #[trigger] r@[i] == (
                        self@.roll()[i],
                        self@.tokens_of(self@.roll()[i]),
                    ),
            decreases self.team_agent_count - n,
        {
            n = n + 1;
            let who = AgentId::Team(n as u64);
            r.push((who, self.tokens_used(who)));
        }
        let mut k: u32 = 0;
        while k < self.meta_agent_count
            invariant
                0 <= k <= self.meta_agent_count,
                r.len() == self.team_agent_count + k + 1,
                forall|i: int|
                    0 <= i < r@.len() ==> #[trigger] r@[i] == (
                        self@.roll()[i],
                        self@.tokens_of(self@.roll()[i]),
                    ),
            decreases self.meta_agent_count - k,
        {
            k = k + 1;
            let who = AgentId::Meta(k as u64);
            r.push((who, self.tokens_used(who)));
        }
        r
    }

    /// The data of the report's run summary.
    pub fn summary(&self) -> (r: RunSummary)
        requires
            self@.room(0, 0, 0),
        ensures
            r.of(self@),
    {
        let mut specialties_used: Vec<SpecialtySlug> = Vec::new();
        let mut i: usize = 0;
        while i < self.specialties_used.len()
            invariant
                0 <= i <= self.specialties_used.len(),
                slug_texts(specialties_used@) == self@.specialties_used.take(i as int),
            decreases self.specialties_used.len() - i,
        {
            let ghost before = specialties_used@;
            specialties_used.push(self.specialties_used[i].clone());
            assert(slug_texts(specialties_used@) =~= slug_texts(before).push(
                self@.specialties_used[i as int],
            ));
            assert(self@.specialties_used.take(i + 1) =~= self@.specialties_used.take(
                i as int,
            ).push(self@.specialties_used[i as int]));
            i = i + 1;
        }
        let mut respecializations: Vec<(AgentId, SpecialtySlug, SpecialtySlug)> = Vec::new();
        let mut j: usize = 0;
        while j < self.respecializations.len()
            invariant
                0 <= j <= self.respecializations.len(),
                change_texts(respecializations@) == self@.respecializations.take(j as int),
            decreases self.respecializations.len() - j,
        {
            let c = &self.respecializations[j];
            let ghost before = respecializations@;
            respecializations.push((c.0, c.1.clone(), c.2.clone()));
            assert(change_texts(respecializations@) =~= change_texts(before).push(
                self@.respecializations[j as int],
            ));
            assert(self@.respecializations.take(j + 1) =~= self@.respecializations.take(
                j as int,
            ).push(self@.respecializations[j as int]));
            j = j + 1;
        }
        let mut parallelism_changes: Vec<u32> = Vec::new();
        let mut k: usize = 0;
        while k < self.parallelism_changes.len()
            invariant
                0 <= k <= self.parallelism_changes.len(),
                parallelism_changes@ == self@.parallelism_changes.take(k as int),
            decreases self.parallelism_changes.len() - k,
        {
            parallelism_changes.push(self.parallelism_changes[k]);
            assert(parallelism_changes@ =~= self@.parallelism_changes.take(k + 1));
            k = k + 1;
        }
        assert(self@.specialties_used.take(i as int) =~= self@.specialties_used);
        assert(self@.respecializations.take(j as int) =~= self@.respecializations);
        assert(self@.parallelism_changes.take(k as int) =~= self@.parallelism_changes);
        RunSummary {
            outcome: self.outcome,
            wall_ms: self.wall_ms(),
            team_agents: self.team_agent_count,
            meta_agents: self.meta_agent_count,
            specialties_used,
            counts: self.counts,
            knowledge_entries: self.counts.knowledge_messages + self.counts.knowledge_notes
                + self.counts.knowledge_completions,
            respecializations,
            initial_parallelism: self.initial_parallelism,
            parallelism_changes,
            tokens_per_agent: self.token_list(),
        }
    }
}

/// The age of the oldest item of a queue.
fn oldest_age(queue: &Vec<Waiting>, now: u64) -> (n: u64)
    ensures
        n == oldest_in(queue@, now),
{
    let mut n: u64 = 0;
    let mut i: usize = 0;
    assert(queue@.take(0) =~= Seq::<Waiting>::empty());
    while i < queue.len()
        invariant
            0 <= i <= queue.len(),
            n == oldest_in(queue@.take(i as int), now),
        decreases queue.len() - i,
    {
        assert(queue@.take(i + 1).drop_last() =~= queue@.take(i as int));
        assert(queue@.take(i + 1).last() == queue@[i as int]);
        let then: EventId = queue[i].1;
        let a: u64 = if now >= then.0 { now - then.0 } else { 0 };
        if a > n {
            n = a;
        }
        i = i + 1;
    }
    assert(queue@.take(i as int) =~= queue@);
    n
}

/// Sorts numbers in ascending order.
fn sort(s: &Vec<u64>) -> (r: Vec<u64>)
    ensures
        r@ == ascending(s@),
{
    let mut r: Vec<u64> = Vec::new();
    let mut i: usize = 0;
    assert(s@.take(0) =~= Seq::<u64>::empty());
    while i < s.len()
        invariant
            0 <= i <= s.len(),
            r@ == ascending(s@.take(i as int)),
        decreases s.len() - i,
    {
        assert(s@.take(i + 1).drop_last() =~= s@.take(i as int));
        assert(s@.take(i + 1).last() == s@[i as int]);
        slot(&mut r, s[i]);
        i = i + 1;
    }
    assert(s@.take(i as int) =~= s@);
    r
}

/// Puts a number in its place.
fn slot(r: &mut Vec<u64>, x: u64)
    ensures
        final(r)@ == slotted(old(r)@, x),
{
    let ghost all = r@;
    let mut k: usize = r.len();
    assert(all.take(k as int) =~= all);
    assert(all.skip(k as int) =~= Seq::<u64>::empty());
    assert(slotted(all.take(k as int), x) + all.skip(k as int) =~= slotted(all, x));
    while k > 0 && r[k - 1] > x
        invariant
            0 <= k <= r.len(),
            r@ == all,
            slotted(all, x) == slotted(all.take(k as int), x) + all.skip(k as int),
        decreases k,
    {
        assert(all.take(k as int).drop_last() =~= all.take(k - 1));
        assert(slotted(all.take(k - 1), x).push(all[k - 1]) + all.skip(k as int) =~= slotted(
            all.take(k - 1),
            x,
        ) + all.skip(k - 1));
        k = k - 1;
    }
    r.insert(k, x);
    assert(all.take(k as int).push(x) + all.skip(k as int) =~= r@);
}

/// The report's view of the metrics.
#[derive(Debug)]
pub struct RunSummary {
    /// How the run ended, if it did.
    pub outcome: Option<(RunFinishReason, u8)>,
    /// Milliseconds from the first event to the last.
    pub wall_ms: i64,
    /// How many team agents.
    pub team_agents: u32,
    /// How many meta-agents.
    pub meta_agents: u32,
    /// The specialties that were used.
    pub specialties_used: Vec<SpecialtySlug>,
    /// The plain counters.
    pub counts: Counts,
    /// Knowledge entries of all kinds.
    pub knowledge_entries: u64,
    /// Every change of specialty.
    pub respecializations: Vec<(AgentId, SpecialtySlug, SpecialtySlug)>,
    /// How many team agents worked at once in the beginning.
    pub initial_parallelism: u32,
    /// Every change of parallelism.
    pub parallelism_changes: Vec<u32>,
    /// Tokens by agent: the orchestrator, the team agents, the meta-agents.
    pub tokens_per_agent: Vec<(AgentId, u64)>,
}

/// The name of a finish reason.
pub open spec fn reason_text(reason: RunFinishReason) -> Seq<char> {
    match reason {
        RunFinishReason::CleanFinish => "CleanFinish"@,
        RunFinishReason::CapHit(cap) => "CapHit("@ + cap.name() + ")"@,
        RunFinishReason::HarnessError => "HarnessError"@,
    }
}

fn reason_str(reason: RunFinishReason) -> (s: String)
    ensures
        s@ == reason_text(reason),
{
    match reason {
        RunFinishReason::CleanFinish => "CleanFinish".to_owned(),
        RunFinishReason::CapHit(cap) => {
            let mut s = "CapHit(".to_owned();
            s.push_str(cap.as_str());
            s.push_str(")");
            s
        },
        RunFinishReason::HarnessError => "HarnessError".to_owned(),
    }
}

/// Milliseconds as seconds with two decimal places.
pub open spec fn seconds_text(ms: int) -> Seq<char> {
    if ms < 0 {
        "-"@ + two_places(scaled((-ms) as nat, 100))
    } else {
        ""@ + two_places(scaled(ms as nat, 100))
    }
}

fn seconds(ms: i64) -> (s: String)
    ensures
        s@ == seconds_text(ms as int),
{
    let size: u64 = if ms < 0 { (-(ms as i128)) as u64 } else { ms as u64 };
    let hundredths = scale_thousandths(size, 100);
    let mut places = wide_text(hundredths / 100);
    places.push_str(".");
    places.push_str(wide_text((hundredths / 10) % 10).as_str());
    places.push_str(wide_text(hundredths % 10).as_str());
    let mut s = if ms < 0 { "-".to_owned() } else { "".to_owned() };
    s.push_str(places.as_str());
    s
}

/// The changes of specialty as `<agent>: <from> → <to>`, the first `n`.
pub open spec fn change_lines(v: Seq<(AgentId, Seq<char>, Seq<char>)>) -> Seq<Seq<char>>
    decreases v.len(),
{
    if v.len() == 0 {
        Seq::empty()
    } else {
        change_lines(v.drop_last()).push(
            v.last().0.handle() + ": "@ + v.last().1 + " → "@ + v.last().2,
        )
    }
}

/// The parallelism and its changes.
pub open spec fn parallelism_chain(initial: u32, changes: Seq<u32>) -> Seq<char>
    decreases changes.len(),
{
    if changes.len() == 0 {
        dec(initial as nat)
    } else {
        parallelism_chain(initial, changes.drop_last()) + " → "@ + dec(changes.last() as nat)
    }
}

/// `<agent> <tokens>` for each agent.
pub open spec fn token_lines(v: Seq<(AgentId, u64)>) -> Seq<Seq<char>>
    decreases v.len(),
{
    if v.len() == 0 {
        Seq::empty()
    } else {
        token_lines(v.drop_last()).push(
            v.last().0.handle() + " "@ + tokens_text(v.last().1 as nat),
        )
    }
}

impl RunSummary {
    /// The summary is that of the given accumulator.
    pub open spec fn of(self, m: MetricsView) -> bool {
        &&& self.outcome == m.outcome
        &&& self.wall_ms == m.wall()
        &&& self.team_agents == m.team_agent_count
        &&& self.meta_agents == m.meta_agent_count
        &&& slug_texts(self.specialties_used@) == m.specialties_used
        &&& self.counts == m.counts
        &&& self.knowledge_entries == m.counts.knowledge_messages + m.counts.knowledge_notes
            + m.counts.knowledge_completions
        &&& change_texts(self.respecializations@) == m.respecializations
        &&& self.initial_parallelism == m.initial_parallelism
        &&& self.parallelism_changes@ == m.parallelism_changes
        &&& self.tokens_per_agent@.len() == m.roll().len()
        &&& forall|i: int|
            0 <= i < m.roll().len() ==> #[trigger] self.tokens_per_agent@[i] == (
                m.roll()[i],
                m.tokens_of(m.roll()[i]),
            )
    }

    /// The outcome clause.
    pub open spec fn outcome_text(self) -> Seq<char> {
        match self.outcome {
            Some((reason, code)) => reason_text(reason) + " (exit "@ + dec(code as nat) + ")"@,
            None => "unknown (run not finished)"@,
        }
    }

    /// The line on changes of specialty.
    pub open spec fn changes_text(self) -> Seq<char> {
        if self.respecializations@.len() == 0 {
            "- Respecializations: 0"@
        } else {
            "- Respecializations: "@ + dec(self.respecializations@.len()) + " ("@ + joined(
                change_lines(change_texts(self.respecializations@)),
                ", "@,
            ) + ")"@
        }
    }

    /// The line on parallelism.
    pub open spec fn parallelism_text(self) -> Seq<char> {
        let chain = "- Effective parallelism: "@ + parallelism_chain(
            self.initial_parallelism,
            self.parallelism_changes@,
        );
        if self.parallelism_changes@.len() > 0 {
            chain + " (meta set_parallelism)"@
        } else {
            chain
        }
    }

    /// The lines of the summary.
    pub open spec fn lines(self) -> Seq<Seq<char>> {
        let c = self.counts;
        let body = Seq::empty().push("## Run summary"@).push(
            "- Outcome: "@ + self.outcome_text(),
        ).push(
            "- Duration: "@ + seconds_text(self.wall_ms as int) + "s wall · "@ + dec(
                c.ticks as nat,
            ) + " ticks"@,
        ).push(
            "- Agents: "@ + dec(self.team_agents as nat) + " team + "@ + dec(
                self.meta_agents as nat,
            ) + " meta · specialties used: "@ + joined(
                slug_texts(self.specialties_used@),
                ", "@,
            ),
        ).push(
            "- Tasks: created "@ + dec(c.tasks_created as nat) + " · completed "@ + dec(
                c.tasks_completed as nat,
            ) + " · cancelled "@ + dec(c.tasks_cancelled as nat),
        ).push(
            "- Messages: "@ + dec(c.messages_total as nat) + " (direct "@ + dec(
                c.messages_direct as nat,
            ) + ", team "@ + dec(c.messages_team as nat) + ", broadcast "@ + dec(
                c.messages_broadcast as nat,
            ) + ")"@,
        ).push(
            "- Knowledge: "@ + dec(self.knowledge_entries as nat) + " entries (Message "@ + dec(
                c.knowledge_messages as nat,
            ) + ", Note "@ + dec(c.knowledge_notes as nat) + ", TaskCompletion "@ + dec(
                c.knowledge_completions as nat,
            ) + ") · "@ + dec(c.knowledge_bytes as nat) + " bytes"@,
        ).push(
            "- Sleeps "@ + dec(c.sleeps as nat) + " · Wakes "@ + dec(c.wakes as nat)
                + " · Parks "@ + dec(c.parks as nat),
        ).push(self.changes_text()).push(self.parallelism_text()).push(
            "- Tokens: "@ + tokens_text(c.tokens_total as nat) + " total — "@ + joined(
                token_lines(self.tokens_per_agent@),
                ", "@,
            ),
        );
        let meta = if self.meta_agents > 0 {
            body.push(
                "- Meta interventions: issued "@ + dec(c.directives_issued as nat)
                    + " · fulfilled "@ + dec(c.directives_fulfilled as nat) + " · declined "@ + dec(
                    c.directives_declined as nat,
                ),
            )
        } else {
            body
        };
        meta.push("- Liveness nudges: "@ + dec(c.liveness_nudges as nat))
    }

    fn outcome_str(&self) -> (s: String)
        ensures
            s@ == self.outcome_text(),
    {
        match self.outcome {
            Some((reason, code)) => {
                let mut s = reason_str(reason);
                s.push_str(" (exit ");
                s.push_str(dec_text(code as u64).as_str());
                s.push_str(")");
                s
            },
            None => "unknown (run not finished)".to_owned(),
        }
    }

    fn changes_str(&self) -> (s: String)
        ensures
            s@ == self.changes_text(),
    {
        if self.respecializations.len() == 0 {
            return "- Respecializations: 0".to_owned();
        }
        let mut parts = no_lines();
        let mut i: usize = 0;
        let ghost all = change_texts(self.respecializations@);
        assert(all.take(0) =~= Seq::<(AgentId, Seq<char>, Seq<char>)>::empty());
        while i < self.respecializations.len()
            invariant
                0 <= i <= self.respecializations.len(),
                all == change_texts(self.respecializations@),
                texts(parts@) == change_lines(all.take(i as int)),
            decreases self.respecializations.len() - i,
        {
            assert(all.take(i + 1).drop_last() =~= all.take(i as int));
            let c = &self.respecializations[i];
            let mut part = c.0.as_str();
            part.push_str(": ");
            part.push_str(c.1.as_str());
            part.push_str(" → ");
            part.push_str(c.2.as_str());
            push_line(&mut parts, part);
            i = i + 1;
        }
        assert(all.take(i as int) =~= all);
        let mut s = "- Respecializations: ".to_owned();
        s.push_str(dec_text(self.respecializations.len() as u64).as_str());
        s.push_str(" (");
        s.push_str(join(&parts, ", ").as_str());
        s.push_str(")");
        s
    }

    fn parallelism_str(&self) -> (s: String)
        ensures
            s@ == self.parallelism_text(),
    {
        let mut chain = dec_text(self.initial_parallelism as u64);
        let mut i: usize = 0;
        let ghost all = self.parallelism_changes@;
        assert(all.take(0) =~= Seq::<u32>::empty());
        while i < self.parallelism_changes.len()
            invariant
                0 <= i <= self.parallelism_changes.len(),
                all == self.parallelism_changes@,
                chain@ == parallelism_chain(self.initial_parallelism, all.take(i as int)),
            decreases self.parallelism_changes.len() - i,
        {
            assert(all.take(i + 1).drop_last() =~= all.take(i as int));
            chain.push_str(" → ");
            chain.push_str(dec_text(self.parallelism_changes[i] as u64).as_str());
            i = i + 1;
        }
        assert(all.take(i as int) =~= all);
        let mut s = "- Effective parallelism: ".to_owned();
        s.push_str(chain.as_str());
        if self.parallelism_changes.len() > 0 {
            s.push_str(" (meta set_parallelism)");
        }
        s
    }

    fn specialties_str(&self) -> (s: String)
        ensures
            s@ == joined(slug_texts(self.specialties_used@), ", "@),
    {
        let mut parts = no_lines();
        let mut i: usize = 0;
        let ghost all = slug_texts(self.specialties_used@);
        assert(all.take(0) =~= Seq::<Seq<char>>::empty());
        while i < self.specialties_used.len()
            invariant
                0 <= i <= self.specialties_used.len(),
                all == slug_texts(self.specialties_used@),
                texts(parts@) == all.take(i as int),
            decreases self.specialties_used.len() - i,
        {
            push_line(&mut parts, self.specialties_used[i].as_str().to_owned());
            assert(all.take(i + 1) =~= all.take(i as int).push(all[i as int]));
            i = i + 1;
        }
        assert(all.take(i as int) =~= all);
        join(&parts, ", ")
    }

    fn tokens_str(&self) -> (s: String)
        ensures
            s@ == joined(token_lines(self.tokens_per_agent@), ", "@),
    {
        let mut parts = no_lines();
        let mut i: usize = 0;
        let ghost all = self.tokens_per_agent@;
        assert(all.take(0) =~= Seq::<(AgentId, u64)>::empty());
        while i < self.tokens_per_agent.len()
            invariant
                0 <= i <= self.tokens_per_agent.len(),
                all == self.tokens_per_agent@,
                texts(parts@) == token_lines(all.take(i as int)),
            decreases self.tokens_per_agent.len() - i,
        {
            assert(all.take(i + 1).drop_last() =~= all.take(i as int));
            let mut part = self.tokens_per_agent[i].0.as_str();
            part.push_str(" ");
            part.push_str(fmt_tokens(self.tokens_per_agent[i].1).as_str());
            push_line(&mut parts, part);
            i = i + 1;
        }
        assert(all.take(i as int) =~= all);
        join(&parts, ", ")
    }

    /// Renders the summary as markdown. A run without meta-agents has no line on interventions.
    pub fn render(&self) -> (s: String)
        ensures
            s@ == joined(self.lines(), "\n"@),
    {
        let c = &self.counts;
        let mut lines = no_lines();
        push_line(&mut lines, "## Run summary".to_owned());
        let mut l = "- Outcome: ".to_owned();
        l.push_str(self.outcome_str().as_str());
        push_line(&mut lines, l);
        let mut l = "- Duration: ".to_owned();
        l.push_str(seconds(self.wall_ms).as_str());
        l.push_str("s wall · ");
        l.push_str(dec_text(c.ticks).as_str());
        l.push_str(" ticks");
        push_line(&mut lines, l);
        let mut l = "- Agents: ".to_owned();
        l.push_str(dec_text(self.team_agents as u64).as_str());
        l.push_str(" team + ");
        l.push_str(dec_text(self.meta_agents as u64).as_str());
        l.push_str(" meta · specialties used: ");
        l.push_str(self.specialties_str().as_str());
        push_line(&mut lines, l);
        let mut l = "- Tasks: created ".to_owned();
        l.push_str(dec_text(c.tasks_created).as_str());
        l.push_str(" · completed ");
        l.push_str(dec_text(c.tasks_completed).as_str());
        l.push_str(" · cancelled ");
        l.push_str(dec_text(c.tasks_cancelled).as_str());
        push_line(&mut lines, l);
        let mut l = "- Messages: ".to_owned();
        l.push_str(dec_text(c.messages_total).as_str());
        l.push_str(" (direct ");
        l.push_str(dec_text(c.messages_direct).as_str());
        l.push_str(", team ");
        l.push_str(dec_text(c.messages_team).as_str());
        l.push_str(", broadcast ");
        l.push_str(dec_text(c.messages_broadcast).as_str());
        l.push_str(")");
        push_line(&mut lines, l);
        let mut l = "- Knowledge: ".to_owned();
        l.push_str(dec_text(self.knowledge_entries).as_str());
        l.push_str(" entries (Message ");
        l.push_str(dec_text(c.knowledge_messages).as_str());
        l.push_str(", Note ");
        l.push_str(dec_text(c.knowledge_notes).as_str());
        l.push_str(", TaskCompletion ");
        l.push_str(dec_text(c.knowledge_completions).as_str());
        l.push_str(") · ");
        l.push_str(dec_text(c.knowledge_bytes).as_str());
        l.push_str(" bytes");
        push_line(&mut lines, l);
        let mut l = "- Sleeps ".to_owned();
        l.push_str(dec_text(c.sleeps).as_str());
        l.push_str(" · Wakes ");
        l.push_str(dec_text(c.wakes).as_str());
        l.push_str(" · Parks ");
        l.push_str(dec_text(c.parks).as_str());
        push_line(&mut lines, l);
        push_line(&mut lines, self.changes_str());
        push_line(&mut lines, self.parallelism_str());
        let mut l = "- Tokens: ".to_owned();
        l.push_str(fmt_tokens(c.tokens_total).as_str());
        l.push_str(" total — ");
        l.push_str(self.tokens_str().as_str());
        push_line(&mut lines, l);
        if self.meta_agents > 0 {
            let mut l = "- Meta interventions: issued ".to_owned();
            l.push_str(dec_text(c.directives_issued).as_str());
            l.push_str(" · fulfilled ");
            l.push_str(dec_text(c.directives_fulfilled).as_str());
            l.push_str(" · declined ");
            l.push_str(dec_text(c.directives_declined).as_str());
            push_line(&mut lines, l);
        }
        let mut l = "- Liveness nudges: ".to_owned();
        l.push_str(dec_text(c.liveness_nudges).as_str());
        push_line(&mut lines, l);
        join(&lines, "\n")
    }
}

/// A meter that is found is the agent's.
pub proof fn lemma_meter_at(meters: Seq<MeterView>, agent: AgentId, i: int)
    requires
        i >= 0,
    ensures
        match meter_at(meters, agent, i) {
            Some(k) => i <= k < meters.len() && meters[k].id == agent,
            None => forall|k: int| i <= k < meters.len() ==> (#[trigger] meters[k]).id != agent,
        },
    decreases meters.len() - i,
{
    if i < meters.len() {
        lemma_meter_at(meters, agent, i + 1);
    }
}

#[verifier::spinoff_prover]
#[verifier::rlimit(40)]
proof fn lemma_room_counts(m: MetricsView, event: EventView, k: nat, bytes: nat, tokens: nat)
    requires
        m.counts.room(k + 1, bytes + event_bytes(event.kind), tokens + event_tokens(event.kind)),
    ensures
        m.fold(event).counts.room(k, bytes, tokens),
{
    reveal(MetricsView::folded);
}

#[verifier::spinoff_prover]
#[verifier::rlimit(40)]
proof fn lemma_room_meters(m: MetricsView, event: EventView, k: nat)
    requires
        k + 1 <= u32::MAX,
        forall|i: int|
            0 <= i < m.team_agents.len() ==> (#[trigger] m.team_agents[i]).malformed + k + 1
                <= u32::MAX,
    ensures
        forall|i: int|
            0 <= i < m.fold(event).team_agents.len() ==> (
            #[trigger] m.fold(event).team_agents[i]).malformed + k <= u32::MAX,
{
    reveal(MetricsView::folded);
    let f = m.fold(event);
    assert forall|agent: AgentId| #[trigger] meter_at(m.team_agents, agent, 0) is Some implies 0
        <= meter_at(m.team_agents, agent, 0)->0 < m.team_agents.len() by {
        lemma_meter_at(m.team_agents, agent, 0);
    }
    assert forall|i: int| 0 <= i < f.team_agents.len() implies (
    #[trigger] f.team_agents[i]).malformed + k <= u32::MAX by {
        if event.kind is RunStarted {
        } else {
            assert(f.team_agents.len() == m.team_agents.len());
            assert(f.team_agents[i].malformed <= m.team_agents[i].malformed + 1);
        }
    }
}

/// No agent has more tokens than all together.
pub open spec fn tokens_add_up(m: MetricsView) -> bool {
    forall|i: int|
        0 <= i < m.tokens_per_agent.len() ==> (#[trigger] m.tokens_per_agent[i]).1
            <= m.counts.tokens_total
}

#[verifier::spinoff_prover]
#[verifier::rlimit(40)]
proof fn lemma_room_tokens(m: MetricsView, event: EventView)
    requires
        m.counts.tokens_total + event_tokens(event.kind) <= u64::MAX,
        tokens_add_up(m),
    ensures
        tokens_add_up(m.fold(event)),
{
    reveal(MetricsView::folded);
    if let EventSource::Agent(agent) = event.source {
        lemma_row_at(m.tokens_per_agent, agent, 0);
    }
    let f = m.fold(event);
    if event.kind is TurnCompleted {
    } else {
        assert(f.tokens_per_agent == m.tokens_per_agent);
        assert(f.counts.tokens_total == m.counts.tokens_total);
    }
}

/// Folding an event uses up the room that the event needs and no more.
pub proof fn lemma_room(m: MetricsView, event: EventView, k: nat, bytes: nat, tokens: nat)
    requires
        m.room(k + 1, bytes + event_bytes(event.kind), tokens + event_tokens(event.kind)),
        tokens_add_up(m),
    ensures
        m.fold(event).room(k, bytes, tokens),
        tokens_add_up(m.fold(event)),
{
    lemma_room_counts(m, event, k, bytes, tokens);
    assert forall|i: int| 0 <= i < m.team_agents.len() implies (
    #[trigger] m.team_agents[i]).malformed + k + 1 <= u32::MAX by {}
    lemma_room_meters(m, event, k);
    lemma_room_tokens(m, event);
    let f = m.fold(event);
    assert(f.counts.room(k, bytes, tokens));
    assert forall|i: int| 0 <= i < f.tokens_per_agent.len() implies (
    #[trigger] f.tokens_per_agent[i]).1 + tokens <= u64::MAX by {}
}

} // verus!
