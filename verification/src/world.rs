//! The world of a run: everything that the verbs, the turns and the scheduler read and change.
//!
//! All changes go through one writer, so that ids are handed out without gaps and every change is
//! logged by the event that it causes.
use crate::agent::AgentId;
use crate::board::{Board, BoardView, StateView, TaskState};
use crate::context::{ProfileView, SpecialtyProfile};
use crate::directive::{Directive, DirectiveView};
use crate::event::{
    log_view, text_view, CapKind, Event, EventKind, EventSource, EventView, KindView,
    RunFinishReason, Timestamp,
};
use crate::ids::{EventId, MessageId, TaskId};
use crate::knowledge::{numbered, EntryView, KnowledgeStore};
use crate::llm::{AgentChannel, ChannelView};
use crate::message::{mail_for, Address, AddressView, Mailboxes, Message, MessageView};
use crate::metrics::{
    event_bytes, event_tokens, fold_log, lemma_room, others, tokens_add_up, without_sender, Metrics,
    MetricsView,
};
use crate::table::{lemma_row_at, put_task, row, task_row, with_row};
use crate::text::texts;
use vstd::prelude::*;

verus! {

/// How many events a meta-agent lets pass before it looks again.
pub const META_CADENCE_THRESHOLD: u64 = 6;

/// From which release of a task on meta-agents look at once.
pub const RELEASE_PRIORITY_THRESHOLD: u32 = 3;

/// How many malformed turns in a row park an agent.
pub const MALFORMED_PARK_K: u32 = 3;

/// How many search hits a prompt shows.
pub const AUTO_RETRIEVAL_K: usize = 3;

/// How many events a meta-agent's prompt shows.
pub const RECENT_EVENTS_WINDOW: usize = 20;

/// What a team agent is doing.
#[derive(Clone, Copy, PartialEq, Eq, Structural, Debug)]
pub enum AgentState {
    /// Nothing.
    Idle,
    /// A task.
    Working {
        /// The task.
        task: TaskId,
    },
    /// Sleeping, or parked.
    Asleep,
}

/// A team agent's books.
#[derive(Debug)]
pub struct AgentSlot {
    /// Who.
    pub id: AgentId,
    /// What it is doing.
    pub state: AgentState,
    /// Whether a turn of it is under way.
    pub in_flight: bool,
    /// Malformed turns in a row.
    pub consecutive_malformed: u32,
    /// Its specialty.
    pub profile: SpecialtyProfile,
    /// What it did lately, line by line.
    pub window: Vec<String>,
    /// How many turns it has begun.
    pub turn_index: u64,
    /// How many events there were when its last prompt was made.
    pub watermark: usize,
    /// Its line to the model.
    pub channel: AgentChannel,
}

/// A team agent's books in specifications.
#[verifier::ext_equal]
pub struct SlotView {
    /// Who.
    pub id: AgentId,
    /// What it is doing.
    pub state: AgentState,
    /// Whether a turn of it is under way.
    pub in_flight: bool,
    /// Malformed turns in a row.
    pub malformed: u32,
    /// Its specialty.
    pub profile: ProfileView,
    /// What it did lately, line by line.
    pub window: Seq<Seq<char>>,
    /// How many turns it has begun.
    pub turn_index: u64,
    /// How many events there were when its last prompt was made.
    pub watermark: usize,
    /// Its line to the model.
    pub channel: ChannelView,
}

impl View for AgentSlot {
    type V = SlotView;

    open spec fn view(&self) -> SlotView {
        SlotView {
            id: self.id,
            state: self.state,
            in_flight: self.in_flight,
            malformed: self.consecutive_malformed,
            profile: self.profile@,
            window: texts(self.window@),
            turn_index: self.turn_index,
            watermark: self.watermark,
            channel: self.channel@,
        }
    }
}

/// The books of the orchestrator or of a meta-agent.
#[derive(Debug)]
pub struct ControlSlot {
    /// Who.
    pub id: AgentId,
    /// Whether a turn of it is under way.
    pub in_flight: bool,
    /// How many turns it has begun.
    pub turn_index: u64,
    /// How many events there were when its last prompt was made.
    pub watermark: usize,
    /// Its line to the model.
    pub channel: AgentChannel,
    /// For a meta-agent, how many events of others it has not looked at.
    pub unobserved: u64,
    /// For a meta-agent, whether it should look at once.
    pub priority: bool,
}

/// The books of the orchestrator or of a meta-agent, in specifications.
pub struct ControlView {
    /// Who.
    pub id: AgentId,
    /// Whether a turn of it is under way.
    pub in_flight: bool,
    /// How many turns it has begun.
    pub turn_index: u64,
    /// How many events there were when its last prompt was made.
    pub watermark: usize,
    /// Its line to the model.
    pub channel: ChannelView,
    /// For a meta-agent, how many events of others it has not looked at.
    pub unobserved: u64,
    /// For a meta-agent, whether it should look at once.
    pub priority: bool,
}

impl View for ControlSlot {
    type V = ControlView;

    open spec fn view(&self) -> ControlView {
        ControlView {
            id: self.id,
            in_flight: self.in_flight,
            turn_index: self.turn_index,
            watermark: self.watermark,
            channel: self.channel@,
            unobserved: self.unobserved,
            priority: self.priority,
        }
    }
}

/// Fresh books.
pub open spec fn fresh_control(id: AgentId, seed: u64) -> ControlView {
    ControlView {
        id,
        in_flight: false,
        turn_index: 0,
        watermark: 0,
        channel: ChannelView { agent: id, specialty: "generalist"@, seed, call_seq: 0 },
        unobserved: 0,
        priority: false,
    }
}

impl ControlSlot {
    /// Fresh books.
    pub fn new(id: AgentId, seed: u64) -> (s: ControlSlot)
        ensures
            s@ == fresh_control(id, seed),
    {
        ControlSlot {
            id,
            in_flight: false,
            turn_index: 0,
            watermark: 0,
            channel: AgentChannel::new(id, seed),
            unobserved: 0,
            priority: false,
        }
    }
}

/// The world of a run.
#[derive(Debug)]
pub struct World {
    /// The goal.
    pub goal: String,
    /// The seed.
    pub seed: u64,
    /// The time that events are stamped with.
    pub now: Timestamp,
    /// Tasks and teams.
    pub board: Board,
    /// Every accepted message.
    pub messages: Vec<Message>,
    /// Messages that have not been delivered.
    pub mailboxes: Mailboxes,
    /// Knowledge.
    pub store: KnowledgeStore,
    /// Every directive.
    pub directives: Vec<Directive>,
    /// The number of the next task.
    pub next_task: u64,
    /// The number of the next message.
    pub next_message: u64,
    /// The number of the next directive.
    pub next_directive: u64,
    /// The number of the next event.
    pub next_event: u64,
    /// The log.
    pub events: Vec<Event>,
    /// The metrics.
    pub metrics: Metrics,
    /// The team agents.
    pub team: Vec<AgentSlot>,
    /// The orchestrator.
    pub orchestrator: ControlSlot,
    /// The meta-agents.
    pub metas: Vec<ControlSlot>,
    /// How often each task was released.
    pub release_counts: Vec<(TaskId, u32)>,
    /// The orchestrator's report.
    pub report: Option<String>,
    /// Whether the orchestrator has asked to finish.
    pub finish_requested: bool,
    /// How the run is finishing, if it is.
    pub finishing: Option<(RunFinishReason, u8)>,
    /// What failed in the harness.
    pub harness_error: Option<String>,
    /// Whether the orchestrator has had its first turn planned.
    pub first_tick_fired: bool,
    /// Whether the watchdog asks for an orchestrator turn.
    pub forced_tick: bool,
    /// Orchestrator turns completed.
    pub ticks: u64,
    /// Completions asked for.
    pub llm_calls: u64,
    /// Turns under way.
    pub turns_in_flight: usize,
    /// How many team agents may work at once.
    pub effective_parallelism: usize,
    /// The most that may ever work at once.
    pub configured_parallelism: usize,
    /// Permits still to be withdrawn.
    pub permit_debt: usize,
    /// Permits that are free.
    pub permits: usize,
}

/// The world of a run in specifications.
#[verifier::ext_equal]
pub struct WorldView {
    /// The goal.
    pub goal: Seq<char>,
    /// The seed.
    pub seed: u64,
    /// The time that events are stamped with.
    pub now: Timestamp,
    /// Tasks and teams.
    pub board: BoardView,
    /// Every accepted message.
    pub messages: Seq<MessageView>,
    /// Messages that have not been delivered.
    pub mail: Map<AgentId, Seq<MessageId>>,
    /// Knowledge.
    pub store: Seq<EntryView>,
    /// Every directive.
    pub directives: Seq<DirectiveView>,
    /// The number of the next task.
    pub next_task: u64,
    /// The number of the next message.
    pub next_message: u64,
    /// The number of the next directive.
    pub next_directive: u64,
    /// The number of the next event.
    pub next_event: u64,
    /// The log.
    pub events: Seq<EventView>,
    /// The metrics.
    pub metrics: MetricsView,
    /// The team agents.
    pub team: Seq<SlotView>,
    /// The orchestrator.
    pub orchestrator: ControlView,
    /// The meta-agents.
    pub metas: Seq<ControlView>,
    /// How often each task was released.
    pub release_counts: Seq<(TaskId, u32)>,
    /// The orchestrator's report.
    pub report: Option<Seq<char>>,
    /// Whether the orchestrator has asked to finish.
    pub finish_requested: bool,
    /// How the run is finishing, if it is.
    pub finishing: Option<(RunFinishReason, u8)>,
    /// What failed in the harness.
    pub harness_error: Option<Seq<char>>,
    /// Whether the orchestrator has had its first turn planned.
    pub first_tick_fired: bool,
    /// Whether the watchdog asks for an orchestrator turn.
    pub forced_tick: bool,
    /// Orchestrator turns completed.
    pub ticks: u64,
    /// Completions asked for.
    pub llm_calls: u64,
    /// Turns under way.
    pub turns_in_flight: usize,
    /// How many team agents may work at once.
    pub effective_parallelism: usize,
    /// The most that may ever work at once.
    pub configured_parallelism: usize,
    /// Permits still to be withdrawn.
    pub permit_debt: usize,
    /// Permits that are free.
    pub permits: usize,
}

/// Messages in specifications.
pub open spec fn message_views(v: Seq<Message>) -> Seq<MessageView> {
    Seq::new(v.len(), |i: int| v[i]@)
}

/// Directives in specifications.
pub open spec fn directive_views(v: Seq<Directive>) -> Seq<DirectiveView> {
    Seq::new(v.len(), |i: int| v[i]@)
}

/// Team agents in specifications.
pub open spec fn slot_views(v: Seq<AgentSlot>) -> Seq<SlotView> {
    Seq::new(v.len(), |i: int| v[i]@)
}

/// Meta-agents in specifications.
pub open spec fn control_views(v: Seq<ControlSlot>) -> Seq<ControlView> {
    Seq::new(v.len(), |i: int| v[i]@)
}

impl View for World {
    type V = WorldView;

    open spec fn view(&self) -> WorldView {
        WorldView {
            goal: self.goal@,
            seed: self.seed,
            now: self.now,
            board: self.board@,
            messages: message_views(self.messages@),
            mail: self.mailboxes@,
            store: self.store@,
            directives: directive_views(self.directives@),
            next_task: self.next_task,
            next_message: self.next_message,
            next_directive: self.next_directive,
            next_event: self.next_event,
            events: log_view(self.events@),
            metrics: self.metrics@,
            team: slot_views(self.team@),
            orchestrator: self.orchestrator@,
            metas: control_views(self.metas@),
            release_counts: self.release_counts@,
            report: text_view(self.report),
            finish_requested: self.finish_requested,
            finishing: self.finishing,
            harness_error: text_view(self.harness_error),
            first_tick_fired: self.first_tick_fired,
            forced_tick: self.forced_tick,
            ticks: self.ticks,
            llm_calls: self.llm_calls,
            turns_in_flight: self.turns_in_flight,
            effective_parallelism: self.effective_parallelism,
            configured_parallelism: self.configured_parallelism,
            permit_debt: self.permit_debt,
            permits: self.permits,
        }
    }
}

/// The first position from `i` on of the agent's books.
pub open spec fn slot_at(team: Seq<SlotView>, agent: AgentId, i: int) -> Option<int>
    decreases team.len() - i,
{
    if i < 0 || i >= team.len() {
        None
    } else if team[i].id == agent {
        Some(i)
    } else {
        slot_at(team, agent, i + 1)
    }
}

/// The first position from `i` on of the meta-agent's books.
pub open spec fn control_at(metas: Seq<ControlView>, agent: AgentId, i: int) -> Option<int>
    decreases metas.len() - i,
{
    if i < 0 || i >= metas.len() {
        None
    } else if metas[i].id == agent {
        Some(i)
    } else {
        control_at(metas, agent, i + 1)
    }
}

/// Books that are found are the agent's.
pub proof fn lemma_slot_at(team: Seq<SlotView>, agent: AgentId, i: int)
    requires
        i >= 0,
    ensures
        match slot_at(team, agent, i) {
            Some(k) => i <= k < team.len() && team[k].id == agent && forall|j: int|
                i <= j < k ==> (#[trigger] team[j]).id != agent,
            None => forall|j: int| i <= j < team.len() ==> (#[trigger] team[j]).id != agent,
        },
    decreases team.len() - i,
{
    if i < team.len() {
        lemma_slot_at(team, agent, i + 1);
    }
}

/// How often each task was released, after an event.
pub open spec fn counted(counts: Seq<(TaskId, u32)>, kind: KindView) -> Seq<(TaskId, u32)> {
    match kind {
        KindView::TaskReleased { task, .. } => with_row(
            counts,
            task,
            match row(counts, task) {
                Some(n) => (n + 1) as u32,
                None => 1,
            },
        ),
        _ => counts,
    }
}

/// An event makes the meta-agents look at once: a park, a declined directive, a nudge, or a task
/// released for at least the third time.
pub open spec fn urgent(counts: Seq<(TaskId, u32)>, kind: KindView) -> bool {
    match kind {
        KindView::AgentParked { .. } => true,
        KindView::DirectiveDeclined { .. } => true,
        KindView::LivenessNudge { .. } => true,
        KindView::TaskReleased { task, .. } => (match row(counts, task) {
            Some(n) => n + 1,
            None => 1,
        }) >= RELEASE_PRIORITY_THRESHOLD,
        _ => false,
    }
}

/// The meta-agents' books after an event: each counts the events of others.
pub open spec fn observed(metas: Seq<ControlView>, source: EventSource, priority: bool) -> Seq<
    ControlView,
> {
    Seq::new(
        metas.len(),
        |i: int|
            if source.actor() == Some(metas[i].id) {
                metas[i]
            } else {
                ControlView {
                    unobserved: (metas[i].unobserved + 1) as u64,
                    priority: metas[i].priority || priority,
                    ..metas[i]
                }
            },
    )
}

/// The number of a team agent or a meta-agent.
pub open spec fn number_of(agent: AgentId) -> u64 {
    match agent {
        AgentId::Orchestrator => 0,
        AgentId::Team(n) => n,
        AgentId::Meta(n) => n,
    }
}

/// The books are those of team agents, each once, in the order of their handles.
pub open spec fn team_in_order(team: Seq<SlotView>) -> bool {
    &&& forall|i: int| 0 <= i < team.len() ==> (#[trigger] team[i]).id is Team
    &&& forall|i: int, j: int|
        0 <= i < j < team.len() ==> number_of((#[trigger] team[i]).id) < number_of(
            (#[trigger] team[j]).id,
        )
}

/// The books are those of meta-agents, each once, in the order of their handles.
pub open spec fn metas_in_order(metas: Seq<ControlView>) -> bool {
    &&& forall|i: int| 0 <= i < metas.len() ==> (#[trigger] metas[i]).id is Meta
    &&& forall|i: int, j: int|
        0 <= i < j < metas.len() ==> number_of((#[trigger] metas[i]).id) < number_of(
            (#[trigger] metas[j]).id,
        )
}

impl WorldView {
    /// What holds of every world: the board's own rules, the numbering of messages, entries and
    /// events, that the metrics are those of the log, and that every agent has its books once, in
    /// the order of the handles.
    pub open spec fn wf(self) -> bool {
        &&& team_in_order(self.team)
        &&& metas_in_order(self.metas)
        &&& self.board.wf()
        &&& numbered(self.store)
        &&& self.next_message == self.messages.len() + 1
        &&& forall|i: int|
            0 <= i < self.messages.len() ==> (#[trigger] self.messages[i]).id.0 == i + 1
        &&& self.next_event == self.events.len()
        &&& forall|i: int| 0 <= i < self.events.len() ==> (#[trigger] self.events[i]).id.0 == i
        &&& self.metrics == fold_log(self.events)
        &&& tokens_add_up(self.metrics)
        &&& self.configured_parallelism >= 1
    }

    /// `k` more steps, `bytes` more bytes of knowledge and `tokens` more tokens can be counted.
    pub open spec fn room(self, k: nat, bytes: nat, tokens: nat) -> bool {
        &&& self.log_room(k, bytes, tokens)
        &&& self.next_task + k <= u64::MAX
        &&& self.next_message + k <= u64::MAX
        &&& self.next_directive + k <= u64::MAX
        &&& self.store.len() + k <= u64::MAX
    }

    /// `k` more events, with `bytes` more bytes of knowledge and `tokens` more tokens, can be logged.
    pub open spec fn log_room(self, k: nat, bytes: nat, tokens: nat) -> bool {
        &&& self.metrics.room(k, bytes, tokens)
        &&& self.next_event + k <= u64::MAX
        &&& forall|i: int|
            0 <= i < self.metas.len() ==> (#[trigger] self.metas[i]).unobserved + k <= u64::MAX
        &&& forall|i: int|
            0 <= i < self.release_counts.len() ==> (#[trigger] self.release_counts[i]).1 + k
                <= u32::MAX
    }

    /// The event that would be logged next.
    pub open spec fn event(self, source: EventSource, kind: KindView) -> EventView {
        EventView { id: EventId(self.next_event), at: self.now, source, kind }
    }

    /// The world with one more event.
    pub open spec fn log(self, source: EventSource, kind: KindView) -> WorldView {
        WorldView {
            next_event: (self.next_event + 1) as u64,
            metrics: self.metrics.fold(self.event(source, kind)),
            release_counts: counted(self.release_counts, kind),
            metas: observed(self.metas, source, urgent(self.release_counts, kind)),
            events: self.events.push(self.event(source, kind)),
            ..self
        }
    }

    /// The agent is one of the team agents.
    pub open spec fn has_team_agent(self, agent: AgentId) -> bool {
        slot_at(self.team, agent, 0) is Some
    }

    /// The world with other books of a team agent.
    pub open spec fn with_slot(self, i: int, slot: SlotView) -> WorldView {
        WorldView { team: self.team.update(i, slot), ..self }
    }

    /// A team agent in another state; nothing changes for anyone else.
    pub open spec fn with_state(self, agent: AgentId, state: AgentState) -> WorldView {
        match slot_at(self.team, agent, 0) {
            Some(i) => self.with_slot(i, SlotView { state, ..self.team[i] }),
            None => self,
        }
    }

    /// The handles of the team agents.
    pub open spec fn team_ids(self) -> Seq<AgentId> {
        Seq::new(self.team.len(), |i: int| self.team[i].id)
    }

    /// Whom a message reaches when it is accepted: the addressee, the members of the team, or the
    /// orchestrator and all team agents; never its sender.
    pub open spec fn recipients(self, sender: AgentId, address: AddressView) -> Seq<AgentId> {
        let all = match address {
            AddressView::Direct { to } => seq![to],
            AddressView::Team { team } => match self.board.team_of(team) {
                Some(i) => self.board.teams[i].members,
                None => Seq::empty(),
            },
            AddressView::Broadcast => seq![AgentId::Orchestrator] + self.team_ids(),
        };
        others(all, Some(sender))
    }

    /// Open tasks among the first `n`.
    pub open spec fn open_count(self, n: int) -> nat
        decreases n,
    {
        if n <= 0 {
            0
        } else if self.board.tasks[n - 1].state is Open {
            self.open_count(n - 1) + 1
        } else {
            self.open_count(n - 1)
        }
    }

    /// The task is claimed by a team agent that sleeps.
    pub open spec fn stuck(self, state: StateView) -> bool {
        match state {
            StateView::Claimed { by } => match slot_at(self.team, by, 0) {
                Some(i) => self.team[i].state is Asleep,
                None => false,
            },
            _ => false,
        }
    }

    /// Tasks among the first `n` whose claimant sleeps.
    pub open spec fn stuck_count(self, n: int) -> nat
        decreases n,
    {
        if n <= 0 {
            0
        } else if self.stuck(self.board.tasks[n - 1].state) {
            self.stuck_count(n - 1) + 1
        } else {
            self.stuck_count(n - 1)
        }
    }

    /// The run is quiet but not done: nothing is under way or about to be, no team agent works, the
    /// orchestrator has no mail, and there are open tasks or tasks whose claimant sleeps. A pending
    /// judgment directive makes no difference.
    pub open spec fn stalled(self) -> bool {
        &&& self.finishing is None
        &&& !self.forced_tick
        &&& self.turns_in_flight == 0
        &&& !self.orchestrator.in_flight
        &&& forall|i: int| 0 <= i < self.team.len() ==> !((#[trigger] self.team[i]).state is Working)
        &&& self.open_count(self.board.tasks.len() as int) + self.stuck_count(
            self.board.tasks.len() as int,
        ) > 0
        &&& mail_for(self.mail, AgentId::Orchestrator).len() == 0
    }

    /// There is an event from position `watermark` on that another than the agent caused.
    pub open spec fn news_for(self, watermark: usize, agent: AgentId) -> bool {
        exists|i: int|
            watermark <= i < self.events.len() && (#[trigger] self.events[i]).source.actor() != Some(
                agent,
            )
    }

    /// There is an event from position `watermark` on that can change what an idle agent would
    /// claim.
    pub open spec fn work_news(self, watermark: usize) -> bool {
        exists|i: int|
            watermark <= i < self.events.len() && changes_work((#[trigger] self.events[i]).kind)
    }

    /// There is an open task that the agent may claim.
    pub open spec fn eligible_open(self, agent: AgentId) -> bool {
        exists|i: int|
            0 <= i < self.board.tasks.len() && (#[trigger] self.board.tasks[i]).state is Open
                && self.board.eligible(agent, self.board.tasks[i])
    }

    /// The orchestrator should have a turn: its first one, one that the watchdog asks for, or
    /// because of mail or news.
    pub open spec fn orchestrator_due(self) -> bool {
        &&& !self.orchestrator.in_flight
        &&& {
            ||| !self.first_tick_fired
            ||| self.forced_tick
            ||| mail_for(self.mail, AgentId::Orchestrator).len() > 0
            ||| self.news_for(self.orchestrator.watermark, AgentId::Orchestrator)
        }
    }

    /// The team agent should have a turn: because it works, or is idle and has mail, or is idle and
    /// there is work for it and news about work.
    pub open spec fn team_due(self, slot: SlotView) -> bool {
        &&& !slot.in_flight
        &&& match slot.state {
            AgentState::Working { .. } => true,
            AgentState::Asleep => false,
            AgentState::Idle => mail_for(self.mail, slot.id).len() > 0 || (self.eligible_open(
                slot.id,
            ) && self.work_news(slot.watermark)),
        }
    }

    /// The scheduler would give someone a turn, permits aside.
    pub open spec fn busy(self) -> bool {
        ||| self.orchestrator_due()
        ||| exists|i: int| 0 <= i < self.metas.len() && meta_due(#[trigger] self.metas[i])
        ||| exists|i: int| 0 <= i < self.team.len() && self.team_due(#[trigger] self.team[i])
    }

    /// The world after a limit has ended the run; a run that is finishing stays as it is.
    pub open spec fn capped(self, cap: CapKind, limit: u64, seen: u64) -> WorldView {
        if self.finishing is Some {
            self
        } else {
            WorldView {
                finishing: Some((RunFinishReason::CapHit(cap), 2)),
                ..self.log(
                    EventSource::System,
                    KindView::CapHit { cap, limit, observed: seen },
                ).log(
                    EventSource::System,
                    KindView::RunFinished { reason: RunFinishReason::CapHit(cap), exit_code: 2 },
                )
            }
        }
    }

    /// The world after a fault has ended the run; a run that is finishing stays as it is.
    pub open spec fn failed(self, message: Seq<char>) -> WorldView {
        if self.finishing is Some {
            self
        } else {
            WorldView {
                finishing: Some((RunFinishReason::HarnessError, 1)),
                ..WorldView { harness_error: Some(message), ..self }.log(
                    EventSource::System,
                    KindView::RunFinished { reason: RunFinishReason::HarnessError, exit_code: 1 },
                )
            }
        }
    }
}

/// The event can change what an idle agent would claim.
pub open spec fn changes_work(kind: KindView) -> bool {
    match kind {
        KindView::TaskCreated { .. } => true,
        KindView::TaskClaimed { .. } => true,
        KindView::TaskReleased { .. } => true,
        KindView::TaskUnassigned { .. } => true,
        KindView::TaskCompleted { .. } => true,
        KindView::TaskCancelled { .. } => true,
        KindView::TeamFormed { .. } => true,
        KindView::TeamMembersSet { .. } => true,
        KindView::TeamDissolved { .. } => true,
        KindView::AgentRespecialized { .. } => true,
        KindView::AgentWoke { .. } => true,
        _ => false,
    }
}

/// The meta-agent should have a turn: at once, or because enough events have passed.
pub open spec fn meta_due(slot: ControlView) -> bool {
    !slot.in_flight && (slot.priority || slot.unobserved >= META_CADENCE_THRESHOLD)
}

/// Logging an event keeps what holds of every world and uses up the room that the event needs.
pub proof fn lemma_log(
    w: WorldView,
    source: EventSource,
    kind: KindView,
    k: nat,
    bytes: nat,
    tokens: nat,
)
    requires
        w.wf(),
        w.log_room(k + 1, bytes + event_bytes(kind), tokens + event_tokens(kind)),
    ensures
        w.log(source, kind).wf(),
        w.log(source, kind).log_room(k, bytes, tokens),
{
    let n = w.log(source, kind);
    lemma_room(w.metrics, w.event(source, kind), k, bytes, tokens);
    assert(n.events.drop_last() =~= w.events);
    assert(n.events.last() == w.event(source, kind));
    if let KindView::TaskReleased { task, .. } = kind {
        lemma_row_at(w.release_counts, task, 0);
    }
    assert forall|i: int| 0 <= i < n.release_counts.len() implies (
    #[trigger] n.release_counts[i]).1 + k <= u32::MAX by {
        if i < w.release_counts.len() {
            assert(w.release_counts[i].1 + k + 1 <= u32::MAX);
        }
        if let KindView::TaskReleased { task, .. } = kind {
            let at = crate::table::row_at(w.release_counts, task, 0);
            if at is Some {
                assert(w.release_counts[at->0].1 + k + 1 <= u32::MAX);
            }
        }
    }
    assert forall|i: int| 0 <= i < n.metas.len() implies (#[trigger] n.metas[i]).unobserved + k
        <= u64::MAX by {
        assert(w.metas[i].unobserved + k + 1 <= u64::MAX);
    }
}

impl World {
    /// What holds of every world.
    pub open spec fn valid(self) -> bool {
        self@.wf() && self.mailboxes.wf()
    }

    /// Logs an event under the next number: it is folded into the metrics, counted for the
    /// meta-agents, and added to the log.
    pub fn append_event(&mut self, source: EventSource, kind: EventKind) -> (id: EventId)
        requires
            old(self)@.wf(),
            old(self)@.log_room(1, event_bytes(kind@), event_tokens(kind@)),
        ensures
            id.0 == old(self)@.next_event,
            final(self)@ == old(self)@.log(source, kind@),
            final(self)@.wf(),
            final(self).mailboxes == old(self).mailboxes,
    {
        let id = EventId(self.next_event);
        self.next_event = self.next_event + 1;
        let event = Event::new(id, self.now, source, kind);
        let ghost k = kind@;
        assert(event@ == old(self)@.event(source, k));
        self.metrics.fold(&event);
        let priority = match &event.kind {
            EventKind::AgentParked { .. } => true,
            EventKind::DirectiveDeclined { .. } => true,
            EventKind::LivenessNudge { .. } => true,
            EventKind::TaskReleased { task, .. } => {
                let n: u32 = match task_row(&self.release_counts, *task) {
                    Some(i) => {
                        assert(old(self)@.release_counts[i as int].1 + 1 <= u32::MAX);
                        self.release_counts[i].1 + 1
                    },
                    None => 1,
                };
                put_task(&mut self.release_counts, *task, n);
                n >= RELEASE_PRIORITY_THRESHOLD
            },
            _ => false,
        };
        assert(priority == urgent(old(self)@.release_counts, k));
        self.observe(source, priority);
        let ghost before = log_view(self.events@);
        let ghost added = event@;
        self.events.push(event);
        assert(log_view(self.events@) =~= before.push(added));
        assert(self@ =~= old(self)@.log(source, k));
        proof {
            lemma_log(old(self)@, source, k, 0, 0, 0);
        }
        id
    }

    /// Counts an event for the meta-agents that did not cause it.
    fn observe(&mut self, source: EventSource, priority: bool)
        requires
            forall|i: int|
                0 <= i < old(self)@.metas.len() ==> (#[trigger] old(self)@.metas[i]).unobserved
                    < u64::MAX,
        ensures
            final(self)@ == (WorldView {
                metas: observed(old(self)@.metas, source, priority),
                ..old(self)@
            }),
            final(self).mailboxes == old(self).mailboxes,
            final(self).events == old(self).events,
    {
        let actor = source.agent();
        let mut i: usize = 0;
        let ghost before = self@;
        let ghost target = observed(before.metas, source, priority);
        while i < self.metas.len()
            invariant
                0 <= i <= self.metas.len(),
                actor == source.actor(),
                target == observed(before.metas, source, priority),
                before == old(self)@,
                self.metas.len() == before.metas.len(),
                forall|j: int|
                    0 <= j < before.metas.len() ==> (#[trigger] before.metas[j]).unobserved
                        < u64::MAX,
                forall|j: int| 0 <= j < i ==> (#[trigger] self.metas@[j])@ == target[j],
                forall|j: int|
                    i <= j < self.metas.len() ==> (#[trigger] self.metas@[j])@ == before.metas[j],
                self@ =~= (WorldView { metas: control_views(self.metas@), ..before }),
                self.mailboxes == old(self).mailboxes,
                self.events == old(self).events,
            decreases self.metas.len() - i,
        {
            let mine = match actor {
                Some(a) => a == self.metas[i].id,
                None => false,
            };
            assert(self.metas@[i as int]@ == before.metas[i as int]);
            assert(before.metas[i as int].unobserved < u64::MAX);
            if !mine {
                self.metas[i].unobserved = self.metas[i].unobserved + 1;
                if priority {
                    self.metas[i].priority = true;
                }
            }
            i = i + 1;
        }
        assert(control_views(self.metas@) =~= target);
    }

    /// Whether `k` more events, with `bytes` more bytes of knowledge and `tokens` more tokens, can be
    /// logged.
    pub fn can_log(&self, k: u32, bytes: u64, tokens: u64) -> (b: bool)
        ensures
            b == self@.log_room(k as nat, bytes as nat, tokens as nat),
    {
        if !self.metrics.can_count(k, bytes, tokens) || self.next_event > u64::MAX - k as u64 {
            return false;
        }
        let mut i: usize = 0;
        while i < self.metas.len()
            invariant
                0 <= i <= self.metas.len(),
                forall|j: int|
                    0 <= j < i ==> (#[trigger] self@.metas[j]).unobserved + k <= u64::MAX,
            decreases self.metas.len() - i,
        {
            assert(self@.metas[i as int].unobserved == self.metas@[i as int].unobserved);
            if self.metas[i].unobserved > u64::MAX - k as u64 {
                return false;
            }
            i = i + 1;
        }
        let mut j: usize = 0;
        while j < self.release_counts.len()
            invariant
                0 <= j <= self.release_counts.len(),
                forall|n: int|
                    0 <= n < j ==> (#[trigger] self@.release_counts[n]).1 + k <= u32::MAX,
            decreases self.release_counts.len() - j,
        {
            assert(self@.release_counts[j as int].1 == self.release_counts@[j as int].1);
            if self.release_counts[j].1 > u32::MAX - k {
                return false;
            }
            j = j + 1;
        }
        true
    }

    /// Whether `k` more steps, with `bytes` more bytes of knowledge and `tokens` more tokens, can be
    /// counted.
    pub fn can_step(&self, k: u32, bytes: u64, tokens: u64) -> (b: bool)
        ensures
            b == self@.room(k as nat, bytes as nat, tokens as nat),
    {
        let most: u64 = u64::MAX - k as u64;
        self.can_log(k, bytes, tokens) && self.next_task <= most && self.next_message <= most
            && self.next_directive <= most && self.store.entry_count() as u64 <= most
    }

    /// The number that the next event will get.
    pub fn planned_event(&self) -> (id: EventId)
        ensures
            id.0 == self@.next_event,
    {
        EventId(self.next_event)
    }

    /// The position of a team agent's books.
    pub fn find_slot(&self, agent: AgentId) -> (r: Option<usize>)
        ensures
            match r {
                Some(i) => slot_at(self@.team, agent, 0) == Some(i as int) && i < self.team.len()
                    && self.team@[i as int].id == agent,
                None => slot_at(self@.team, agent, 0) is None,
            },
    {
        let mut i: usize = 0;
        while i < self.team.len()
            invariant
                0 <= i <= self.team.len(),
                slot_at(self@.team, agent, 0) == slot_at(self@.team, agent, i as int),
            decreases self.team.len() - i,
        {
            if self.team[i].id == agent {
                return Some(i);
            }
            i = i + 1;
        }
        None
    }

    /// The position of a meta-agent's books.
    pub fn find_meta(&self, agent: AgentId) -> (r: Option<usize>)
        ensures
            match r {
                Some(i) => control_at(self@.metas, agent, 0) == Some(i as int) && i
                    < self.metas.len() && self.metas@[i as int].id == agent,
                None => control_at(self@.metas, agent, 0) is None,
            },
    {
        let mut i: usize = 0;
        while i < self.metas.len()
            invariant
                0 <= i <= self.metas.len(),
                control_at(self@.metas, agent, 0) == control_at(self@.metas, agent, i as int),
            decreases self.metas.len() - i,
        {
            if self.metas[i].id == agent {
                return Some(i);
            }
            i = i + 1;
        }
        None
    }

    /// Puts a team agent in another state.
    pub fn set_state(&mut self, agent: AgentId, state: AgentState)
        ensures
            final(self)@ == old(self)@.with_state(agent, state),
            old(self)@.wf() ==> final(self)@.wf(),
            final(self).mailboxes == old(self).mailboxes,
    {
        if let Some(i) = self.find_slot(agent) {
            self.team[i].state = state;
        }
        assert(self@ =~= old(self)@.with_state(agent, state));
    }

    /// The handles of the team agents.
    pub fn team_agent_ids(&self) -> (r: Vec<AgentId>)
        ensures
            r@ == self@.team_ids(),
    {
        let mut r: Vec<AgentId> = Vec::new();
        let mut i: usize = 0;
        while i < self.team.len()
            invariant
                0 <= i <= self.team.len(),
                r.len() == i,
                forall|k: int| 0 <= k < i ==> #[trigger] r@[k] == self@.team[k].id,
            decreases self.team.len() - i,
        {
            r.push(self.team[i].id);
            i = i + 1;
        }
        assert(r@ =~= self@.team_ids());
        r
    }

    /// Whether the agent is one of the team agents.
    pub fn is_team_agent(&self, agent: &AgentId) -> (b: bool)
        ensures
            b == self@.has_team_agent(*agent),
    {
        self.find_slot(*agent).is_some()
    }

    /// Whom a message reaches when it is accepted.
    pub fn recipients_for(&self, sender: &AgentId, address: &Address) -> (r: Vec<AgentId>)
        ensures
            r@ == self@.recipients(*sender, address@),
    {
        let all = match address {
            Address::Direct { to } => {
                let mut v: Vec<AgentId> = Vec::new();
                v.push(*to);
                assert(v@ =~= seq![*to]);
                v
            },
            Address::Team { team } => match self.board.team(team) {
                Some(t) => crate::board::copy_agents(&t.members),
                None => Vec::new(),
            },
            Address::Broadcast => {
                let mut v: Vec<AgentId> = Vec::new();
                v.push(AgentId::Orchestrator);
                let mut ids = self.team_agent_ids();
                v.append(&mut ids);
                assert(v@ =~= seq![AgentId::Orchestrator] + self@.team_ids());
                v
            },
        };
        without_sender(&all, Some(*sender))
    }

    /// Open tasks, and tasks whose claimant sleeps.
    fn count_stalled(&self) -> (r: (u64, u64))
        ensures
            r.0 == self@.open_count(self@.board.tasks.len() as int),
            r.1 == self@.stuck_count(self@.board.tasks.len() as int),
    {
        let tasks = self.board.tasks();
        let mut open: u64 = 0;
        let mut stuck: u64 = 0;
        let mut i: usize = 0;
        while i < tasks.len()
            invariant
                0 <= i <= tasks.len(),
                tasks@.len() == self@.board.tasks.len(),
                forall|k: int|
                    0 <= k < tasks@.len() ==> (#[trigger] tasks@[k])@ == self@.board.tasks[k],
                open == self@.open_count(i as int),
                stuck == self@.stuck_count(i as int),
                open <= i,
                stuck <= i,
            decreases tasks.len() - i,
        {
            assert(tasks@[i as int]@ == self@.board.tasks[i as int]);
            match &tasks[i].state {
                TaskState::Open => {
                    open = open + 1;
                },
                TaskState::Claimed { by } => {
                    if let Some(k) = self.find_slot(*by) {
                        if let AgentState::Asleep = self.team[k].state {
                            stuck = stuck + 1;
                        }
                    }
                },
                _ => {},
            }
            i = i + 1;
        }
        (open, stuck)
    }

    /// Whether no team agent works.
    fn none_working(&self) -> (b: bool)
        ensures
            b == (forall|i: int|
                0 <= i < self@.team.len() ==> !((#[trigger] self@.team[i]).state is Working)),
    {
        let mut i: usize = 0;
        while i < self.team.len()
            invariant
                0 <= i <= self.team.len(),
                forall|k: int| 0 <= k < i ==> !((#[trigger] self@.team[k]).state is Working),
            decreases self.team.len() - i,
        {
            if let AgentState::Working { .. } = self.team[i].state {
                assert(self@.team[i as int].state is Working);
                return false;
            }
            i = i + 1;
        }
        true
    }

    /// If the run is quiet but not done: how many tasks are open, and how many have a claimant that
    /// sleeps.
    pub fn liveness_predicate(&self) -> (r: Option<(u32, u32)>)
        ensures
            match r {
                Some((open, stuck)) => {
                    &&& self@.stalled()
                    &&& open == self@.open_count(self@.board.tasks.len() as int) % 0x1_0000_0000
                    &&& stuck == self@.stuck_count(self@.board.tasks.len() as int) % 0x1_0000_0000
                },
                None => !self@.stalled(),
            },
    {
        if self.finishing.is_some() || self.forced_tick || self.turns_in_flight > 0 {
            return None;
        }
        if self.orchestrator.in_flight {
            return None;
        }
        if !self.none_working() {
            return None;
        }
        let (open, stuck) = self.count_stalled();
        if open == 0 && stuck == 0 {
            return None;
        }
        if self.mailboxes.depth(&AgentId::Orchestrator) > 0 {
            return None;
        }
        Some(((open % 0x1_0000_0000) as u32, (stuck % 0x1_0000_0000) as u32))
    }

    /// Whether there is an event from position `watermark` on that another than the agent caused.
    pub fn has_new_events(&self, watermark: usize, agent: &AgentId) -> (b: bool)
        ensures
            b == self@.news_for(watermark, *agent),
    {
        let mut i: usize = watermark;
        while i < self.events.len()
            invariant
                watermark <= i,
                forall|k: int|
                    watermark <= k < i && k < self.events.len() ==> (
                    #[trigger] self@.events[k]).source.actor() == Some(*agent),
            decreases self.events.len() - i,
        {
            let mine = match self.events[i].source {
                EventSource::Agent(a) => a == *agent,
                EventSource::System => false,
            };
            if !mine {
                assert(self@.events[i as int].source.actor() != Some(*agent));
                return true;
            }
            i = i + 1;
        }
        false
    }

    /// Whether there is an event from position `watermark` on that can change what an idle agent
    /// would claim.
    pub fn has_new_work_events(&self, watermark: usize) -> (b: bool)
        ensures
            b == self@.work_news(watermark),
    {
        let mut i: usize = watermark;
        while i < self.events.len()
            invariant
                watermark <= i,
                forall|k: int|
                    watermark <= k < i && k < self.events.len() ==> !changes_work(
                        (#[trigger] self@.events[k]).kind,
                    ),
            decreases self.events.len() - i,
        {
            let work = match &self.events[i].kind {
                EventKind::TaskCreated { .. } => true,
                EventKind::TaskClaimed { .. } => true,
                EventKind::TaskReleased { .. } => true,
                EventKind::TaskUnassigned { .. } => true,
                EventKind::TaskCompleted { .. } => true,
                EventKind::TaskCancelled { .. } => true,
                EventKind::TeamFormed { .. } => true,
                EventKind::TeamMembersSet { .. } => true,
                EventKind::TeamDissolved { .. } => true,
                EventKind::AgentRespecialized { .. } => true,
                EventKind::AgentWoke { .. } => true,
                _ => false,
            };
            assert(work == changes_work(self@.events[i as int].kind));
            if work {
                return true;
            }
            i = i + 1;
        }
        false
    }

    /// Whether there is an open task that the agent may claim.
    pub fn has_eligible_open(&self, agent: &AgentId) -> (b: bool)
        ensures
            b == self@.eligible_open(*agent),
    {
        let tasks = self.board.tasks();
        let mut i: usize = 0;
        while i < tasks.len()
            invariant
                0 <= i <= tasks.len(),
                tasks@.len() == self@.board.tasks.len(),
                forall|k: int|
                    0 <= k < tasks@.len() ==> (#[trigger] tasks@[k])@ == self@.board.tasks[k],
                forall|k: int|
                    0 <= k < i ==> !((#[trigger] self@.board.tasks[k]).state is Open
                        && self@.board.eligible(*agent, self@.board.tasks[k])),
            decreases tasks.len() - i,
        {
            assert(tasks@[i as int]@ == self@.board.tasks[i as int]);
            if let TaskState::Open = tasks[i].state {
                if self.board.is_eligible(agent, &tasks[i]) {
                    assert(self@.board.tasks[i as int].state is Open);
                    return true;
                }
            }
            i = i + 1;
        }
        false
    }

    /// Whether the orchestrator should have a turn.
    pub fn wants_orchestrator(&self) -> (b: bool)
        ensures
            b == self@.orchestrator_due(),
    {
        !self.orchestrator.in_flight && (!self.first_tick_fired || self.forced_tick
            || self.mailboxes.depth(&AgentId::Orchestrator) > 0 || self.has_new_events(
            self.orchestrator.watermark,
            &AgentId::Orchestrator,
        ))
    }

    /// Whether the team agent at a position should have a turn.
    pub fn wants_turn(&self, i: usize) -> (b: bool)
        requires
            i < self.team.len(),
        ensures
            b == self@.team_due(self@.team[i as int]),
    {
        let slot = &self.team[i];
        if slot.in_flight {
            return false;
        }
        match slot.state {
            AgentState::Working { .. } => true,
            AgentState::Asleep => false,
            AgentState::Idle => self.mailboxes.depth(&slot.id) > 0 || (self.has_eligible_open(
                &slot.id,
            ) && self.has_new_work_events(slot.watermark)),
        }
    }

    /// Whether the scheduler would give someone a turn, permits aside.
    pub fn would_dispatch(&self) -> (b: bool)
        ensures
            b == self@.busy(),
    {
        if self.wants_orchestrator() {
            return true;
        }
        let mut i: usize = 0;
        while i < self.metas.len()
            invariant
                0 <= i <= self.metas.len(),
                forall|k: int| 0 <= k < i ==> !meta_due(#[trigger] self@.metas[k]),
            decreases self.metas.len() - i,
        {
            if !self.metas[i].in_flight && (self.metas[i].priority || self.metas[i].unobserved
                >= META_CADENCE_THRESHOLD) {
                assert(meta_due(self@.metas[i as int]));
                return true;
            }
            i = i + 1;
        }
        let mut j: usize = 0;
        while j < self.team.len()
            invariant
                0 <= j <= self.team.len(),
                forall|k: int| 0 <= k < j ==> !self@.team_due(#[trigger] self@.team[k]),
            decreases self.team.len() - j,
        {
            if self.wants_turn(j) {
                assert(self@.team_due(self@.team[j as int]));
                return true;
            }
            j = j + 1;
        }
        false
    }

    /// Ends the run because of a limit, unless it is finishing.
    pub fn trigger_cap(&mut self, cap: CapKind, limit: u64, observed: u64)
        requires
            old(self)@.wf(),
            old(self)@.log_room(2, 0, 0),
        ensures
            final(self)@ == old(self)@.capped(cap, limit, observed),
            final(self)@.wf(),
            final(self).mailboxes == old(self).mailboxes,
    {
        if self.finishing.is_some() {
            return ;
        }
        proof {
            lemma_log(
                self@,
                EventSource::System,
                KindView::CapHit { cap, limit, observed },
                1,
                0,
                0,
            );
        }
        self.append_event(EventSource::System, EventKind::CapHit { cap, limit, observed });
        self.append_event(
            EventSource::System,
            EventKind::RunFinished { reason: RunFinishReason::CapHit(cap), exit_code: 2 },
        );
        self.finishing = Some((RunFinishReason::CapHit(cap), 2));
        assert(self@ =~= old(self)@.capped(cap, limit, observed));
    }

    /// Ends the run because something failed, unless it is finishing.
    pub fn trigger_harness_error(&mut self, message: String)
        requires
            old(self)@.wf(),
            old(self)@.log_room(1, 0, 0),
        ensures
            final(self)@ == old(self)@.failed(message@),
            final(self)@.wf(),
            final(self).mailboxes == old(self).mailboxes,
    {
        if self.finishing.is_some() {
            return ;
        }
        let ghost text = message@;
        self.harness_error = Some(message);
        assert(self@ =~= (WorldView { harness_error: Some(text), ..old(self)@ }));
        self.append_event(
            EventSource::System,
            EventKind::RunFinished { reason: RunFinishReason::HarnessError, exit_code: 1 },
        );
        self.finishing = Some((RunFinishReason::HarnessError, 1));
        assert(self@ =~= old(self)@.failed(text));
    }
}

} // verus!
