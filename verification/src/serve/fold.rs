//! A run rebuilt from its log: the board, the agents and the metrics, at any point of the run.
use crate::agent::{AgentId, SpecialtySlug};
use crate::board::{copy_agents, copy_tag, Board, BoardView, StateView, TaskView};
use crate::event::{log_view, Event, EventKind, EventView, KindView, RestoredState};
use crate::ids::{RunId, TaskId};
use crate::json::{fields_view, find_key, key_at, lemma_fields, object1, Json, JsonView};
use crate::metrics::{
    event_bytes, event_tokens, fold_log, lemma_room, tokens_add_up, Metrics, RunSummary,
};
use crate::serve::discovery::{RunHeader, RunState};
use crate::text::{chars_of, precedes, text_less};
use vstd::prelude::*;

verus! {

// ---------------------------------------------------------------------------
// The board.
// ---------------------------------------------------------------------------

/// The board after one more event: what the event says was done is done again, unless the board
/// refuses it.
pub open spec fn applied(b: BoardView, e: EventView) -> BoardView {
    match e.kind {
        KindView::TaskCreated { task, title, description, team } => if b.create_refusal(
            task,
            team,
        ) is None {
            b.with_task(
                TaskView {
                    id: task,
                    title,
                    description,
                    created_by: match e.source.actor() {
                        Some(a) => a,
                        None => AgentId::Orchestrator,
                    },
                    origin_event: e.id,
                    team,
                    state: StateView::Open,
                },
            )
        } else {
            b
        },
        KindView::TaskClaimed { task, .. } => match e.source.actor() {
            Some(a) => if b.claim_refusal(a, task) is None {
                b.claimed(a, task)
            } else {
                b
            },
            None => b,
        },
        KindView::TaskReleased { .. } => match e.source.actor() {
            Some(a) => if b.claim_of(a) is Some {
                b.released(a)
            } else {
                b
            },
            None => b,
        },
        KindView::TaskUnassigned { task, .. } => if b.unassign_refusal(task) is None {
            b.unassigned(task)
        } else {
            b
        },
        KindView::TaskCompleted { result, result_ref, .. } => match e.source.actor() {
            Some(a) => if b.claim_of(a) is Some {
                b.completed(a, result, result_ref)
            } else {
                b
            },
            None => b,
        },
        KindView::TaskCancelled { task, reason } => if b.cancel_refusal(task) is None {
            b.cancelled(task, reason)
        } else {
            b
        },
        KindView::TeamFormed { team, members } => if b.form_refusal(team) is None {
            b.formed(team, members)
        } else {
            b
        },
        KindView::TeamMembersSet { team, members, .. } => if b.members_refusal(team) is None {
            b.reteamed(team, members)
        } else {
            b
        },
        KindView::TeamDissolved { team } => if b.dissolve_refusal(team) is None {
            b.dissolved(team)
        } else {
            b
        },
        _ => b,
    }
}

/// The board that a log describes.
pub open spec fn replayed(log: Seq<EventView>) -> BoardView
    decreases log.len(),
{
    if log.len() == 0 {
        BoardView::empty()
    } else {
        applied(replayed(log.drop_last()), log.last())
    }
}

/// Does again on a board what an event says was done.
pub fn apply_board(board: &mut Board, event: &Event)
    requires
        old(board)@.wf(),
    ensures
        final(board)@.wf(),
        final(board)@ == applied(old(board)@, event@),
{
    match &event.kind {
        EventKind::TaskCreated { task, title, description, team } => {
            let created_by = match event.source.agent() {
                Some(a) => a,
                None => AgentId::Orchestrator,
            };
            let _ = board.create_task(
                *task,
                title.clone(),
                description.clone(),
                created_by,
                event.id,
                copy_tag(team),
            );
        },
        EventKind::TaskClaimed { task, .. } => {
            if let Some(agent) = event.source.agent() {
                let _ = board.claim(&agent, *task);
            }
        },
        EventKind::TaskReleased { .. } => {
            if let Some(agent) = event.source.agent() {
                let _ = board.release(&agent);
            }
        },
        EventKind::TaskUnassigned { task, .. } => {
            let _ = board.unassign(*task);
        },
        EventKind::TaskCompleted { result, result_ref, .. } => {
            if let Some(agent) = event.source.agent() {
                let _ = board.complete(&agent, result.clone(), *result_ref);
            }
        },
        EventKind::TaskCancelled { task, reason } => {
            let _ = board.cancel(*task, reason.clone());
        },
        EventKind::TeamFormed { team, members } => {
            let _ = board.form_team(team.clone(), copy_agents(members));
        },
        EventKind::TeamMembersSet { team, members, .. } => {
            let _ = board.set_team_members(team, copy_agents(members));
        },
        EventKind::TeamDissolved { team } => {
            let _ = board.dissolve_team(team);
        },
        _ => {},
    }
}

// ---------------------------------------------------------------------------
// The agents.
// ---------------------------------------------------------------------------

/// What an agent does, as clients see it.
#[derive(Clone, Copy, PartialEq, Eq, Structural, Debug)]
pub enum AgentWireState {
    /// Idle.
    Idle,
    /// Working, and on what.
    Working { task: TaskId },
    /// Asleep.
    Asleep,
    /// Parked, after malformed turns.
    Parked,
}

impl AgentWireState {
    /// The state as JSON.
    pub open spec fn json(self) -> JsonView {
        match self {
            AgentWireState::Idle => JsonView::Text("idle"@),
            AgentWireState::Working { task } => JsonView::Object(
                seq![("working"@, JsonView::Object(seq![("task"@, JsonView::number(task.0))]))],
            ),
            AgentWireState::Asleep => JsonView::Text("asleep"@),
            AgentWireState::Parked => JsonView::Text("parked"@),
        }
    }

    /// The state as JSON.
    pub fn to_json(&self) -> (j: Json)
        ensures
            j@ == self.json(),
    {
        match self {
            AgentWireState::Idle => Json::string("idle"),
            AgentWireState::Working { task } => object1(
                "working",
                object1("task", Json::number(task.0)),
            ),
            AgentWireState::Asleep => Json::string("asleep"),
            AgentWireState::Parked => Json::string("parked"),
        }
    }
}

/// A team agent as clients see it.
#[derive(Debug)]
pub struct AgentEntry {
    /// The agent.
    pub handle: AgentId,
    /// Its specialty.
    pub specialty: SpecialtySlug,
    /// What it does.
    pub state: AgentWireState,
}

/// A team agent as clients see it, in specifications.
#[verifier::ext_equal]
pub struct ClientAgent {
    /// The agent.
    pub handle: AgentId,
    /// Its specialty.
    pub specialty: Seq<char>,
    /// What it does.
    pub state: AgentWireState,
}

impl View for AgentEntry {
    type V = ClientAgent;

    open spec fn view(&self) -> ClientAgent {
        ClientAgent { handle: self.handle, specialty: self.specialty@, state: self.state }
    }
}

/// What a list of agents holds.
pub open spec fn client_agents(v: Seq<AgentEntry>) -> Seq<ClientAgent> {
    Seq::new(v.len(), |i: int| v[i]@)
}

/// The position of an agent from `i` on.
pub open spec fn entry_at(agents: Seq<ClientAgent>, agent: AgentId, i: int) -> Option<int>
    decreases agents.len() - i,
{
    if i < 0 || i >= agents.len() {
        None
    } else if agents[i].handle == agent {
        Some(i)
    } else {
        entry_at(agents, agent, i + 1)
    }
}

/// Agents of which one does something else; others are not among them.
pub open spec fn with_wire_state(
    agents: Seq<ClientAgent>,
    agent: AgentId,
    state: AgentWireState,
) -> Seq<ClientAgent> {
    match entry_at(agents, agent, 0) {
        Some(i) => agents.update(i, ClientAgent { state, ..agents[i] }),
        None => agents,
    }
}

/// Agents of which one has another specialty.
pub open spec fn with_specialty(
    agents: Seq<ClientAgent>,
    agent: AgentId,
    specialty: Seq<char>,
) -> Seq<ClientAgent> {
    match entry_at(agents, agent, 0) {
        Some(i) => agents.update(i, ClientAgent { specialty, ..agents[i] }),
        None => agents,
    }
}

/// The team agents at the start of a run.
pub open spec fn booted(count: u32) -> Seq<ClientAgent> {
    Seq::new(
        count as nat,
        |i: int|
            ClientAgent {
                handle: AgentId::Team((i + 1) as u64),
                specialty: "generalist"@,
                state: AgentWireState::Idle,
            },
    )
}

/// What a woken agent does.
pub open spec fn restored_state(r: RestoredState) -> AgentWireState {
    match r {
        RestoredState::Working { task } => AgentWireState::Working { task },
        RestoredState::Idle => AgentWireState::Idle,
    }
}

/// The agents after one more event.
pub open spec fn agents_applied(agents: Seq<ClientAgent>, e: EventView) -> Seq<ClientAgent> {
    match e.kind {
        KindView::RunStarted { agents, .. } => booted(agents),
        KindView::TaskClaimed { task, .. } => match e.source.actor() {
            Some(a) => with_wire_state(agents, a, AgentWireState::Working { task }),
            None => agents,
        },
        KindView::TaskReleased { .. } => match e.source.actor() {
            Some(a) => with_wire_state(agents, a, AgentWireState::Idle),
            None => agents,
        },
        KindView::TaskCompleted { .. } => match e.source.actor() {
            Some(a) => with_wire_state(agents, a, AgentWireState::Idle),
            None => agents,
        },
        KindView::TaskUnassigned { prev_claimant, .. } => with_wire_state(
            agents,
            prev_claimant,
            AgentWireState::Idle,
        ),
        KindView::AgentSlept { agent, .. } => with_wire_state(
            agents,
            agent,
            AgentWireState::Asleep,
        ),
        KindView::AgentParked { agent, .. } => with_wire_state(
            agents,
            agent,
            AgentWireState::Parked,
        ),
        KindView::AgentWoke { agent, restored, .. } => with_wire_state(
            agents,
            agent,
            restored_state(restored),
        ),
        KindView::AgentRespecialized { agent, to, .. } => with_specialty(agents, agent, to),
        _ => agents,
    }
}

/// The agents that a log describes.
pub open spec fn agents_replayed(log: Seq<EventView>) -> Seq<ClientAgent>
    decreases log.len(),
{
    if log.len() == 0 {
        Seq::empty()
    } else {
        agents_applied(agents_replayed(log.drop_last()), log.last())
    }
}

/// The team agents of a run, as clients see them.
#[derive(Debug)]
pub struct AgentFold {
    entries: Vec<AgentEntry>,
}

impl View for AgentFold {
    type V = Seq<ClientAgent>;

    closed spec fn view(&self) -> Seq<ClientAgent> {
        client_agents(self.entries@)
    }
}

impl AgentFold {
    /// No agents.
    pub fn new() -> (a: AgentFold)
        ensures
            a@ == Seq::<ClientAgent>::empty(),
    {
        let a = AgentFold { entries: Vec::new() };
        assert(a@ =~= Seq::<ClientAgent>::empty());
        a
    }

    fn init(&mut self, count: u32)
        ensures
            final(self)@ == booted(count),
    {
        let mut entries: Vec<AgentEntry> = Vec::new();
        let mut n: u32 = 0;
        while n < count
            invariant
                0 <= n <= count,
                entries.len() == n,
                forall|k: int| 0 <= k < n ==> (#[trigger] entries@[k])@ == booted(count)[k],
            decreases count - n,
        {
            entries.push(
                AgentEntry {
                    handle: AgentId::Team(n as u64 + 1),
                    specialty: SpecialtySlug::generalist(),
                    state: AgentWireState::Idle,
                },
            );
            n = n + 1;
        }
        self.entries = entries;
        assert(self@ =~= booted(count));
    }

    fn find(&self, agent: AgentId) -> (r: Option<usize>)
        ensures
            match r {
                Some(i) => entry_at(self@, agent, 0) == Some(i as int) && i < self.entries.len(),
                None => entry_at(self@, agent, 0) is None,
            },
    {
        let mut i: usize = 0;
        while i < self.entries.len()
            invariant
                0 <= i <= self.entries.len(),
                entry_at(self@, agent, 0) == entry_at(self@, agent, i as int),
            decreases self.entries.len() - i,
        {
            if self.entries[i].handle == agent {
                return Some(i);
            }
            i = i + 1;
        }
        None
    }

    fn set_state(&mut self, agent: AgentId, state: AgentWireState)
        ensures
            final(self)@ == with_wire_state(old(self)@, agent, state),
    {
        if let Some(i) = self.find(agent) {
            self.entries[i].state = state;
        }
        assert(self@ =~= with_wire_state(old(self)@, agent, state));
    }

    fn set_specialty(&mut self, agent: AgentId, specialty: SpecialtySlug)
        ensures
            final(self)@ == with_specialty(old(self)@, agent, specialty@),
    {
        let ghost slug = specialty@;
        if let Some(i) = self.find(agent) {
            self.entries[i].specialty = specialty;
        }
        assert(self@ =~= with_specialty(old(self)@, agent, slug));
    }

    /// Follows an event.
    pub fn apply(&mut self, event: &Event)
        ensures
            final(self)@ == agents_applied(old(self)@, event@),
    {
        match &event.kind {
            EventKind::RunStarted { agents, .. } => {
                self.init(*agents);
            },
            EventKind::TaskClaimed { task, .. } => {
                if let Some(agent) = event.source.agent() {
                    self.set_state(agent, AgentWireState::Working { task: *task });
                }
            },
            EventKind::TaskReleased { .. } => {
                if let Some(agent) = event.source.agent() {
                    self.set_state(agent, AgentWireState::Idle);
                }
            },
            EventKind::TaskCompleted { .. } => {
                if let Some(agent) = event.source.agent() {
                    self.set_state(agent, AgentWireState::Idle);
                }
            },
            EventKind::TaskUnassigned { prev_claimant, .. } => {
                self.set_state(*prev_claimant, AgentWireState::Idle);
            },
            EventKind::AgentSlept { agent, .. } => {
                self.set_state(*agent, AgentWireState::Asleep);
            },
            EventKind::AgentParked { agent, .. } => {
                self.set_state(*agent, AgentWireState::Parked);
            },
            EventKind::AgentWoke { agent, restored, .. } => {
                let state = match restored {
                    RestoredState::Working { task } => AgentWireState::Working { task: *task },
                    RestoredState::Idle => AgentWireState::Idle,
                };
                self.set_state(*agent, state);
            },
            EventKind::AgentRespecialized { agent, to, .. } => {
                self.set_specialty(*agent, to.clone());
            },
            _ => {},
        }
    }

    /// The agents.
    pub fn into_entries(self) -> (v: Vec<AgentEntry>)
        ensures
            client_agents(v@) == self@,
    {
        self.entries
    }
}

// ---------------------------------------------------------------------------
// The run.
// ---------------------------------------------------------------------------

/// A run rebuilt from its log.
#[derive(Debug)]
pub struct Folded {
    /// The id of the last event.
    pub as_of: u64,
    /// The board.
    pub board: Board,
    /// The agents.
    pub agents: AgentFold,
    /// The metrics.
    pub metrics: Metrics,
}

impl Folded {
    /// This is the run that a log describes.
    pub open spec fn of(self, log: Seq<EventView>) -> bool {
        &&& self.as_of == if log.len() == 0 {
            0
        } else {
            log.last().id.0
        }
        &&& self.board@ == replayed(log)
        &&& self.board@.wf()
        &&& self.agents@ == agents_replayed(log)
        &&& self.metrics@ == fold_log(log)
        &&& self.metrics@.room(0, 0, 0)
    }
}

/// The numbers that a log adds up to can be counted.
pub open spec fn countable(log: Seq<EventView>) -> bool {
    forall|i: int|
        0 <= i < log.len() ==> fold_log(log.take(i)).room(
            1,
            event_bytes((#[trigger] log[i]).kind),
            event_tokens(log[i].kind),
        )
}

/// Rebuilds a run from its log. There is no result for a log whose numbers cannot be counted.
pub fn fold_events(events: &Vec<Event>) -> (r: Option<Folded>)
    ensures
        match r {
            Some(f) => countable(log_view(events@)) && f.of(log_view(events@)),
            None => !countable(log_view(events@)),
        },
{
    let ghost log = log_view(events@);
    let mut f = Folded {
        as_of: 0,
        board: Board::new(),
        agents: AgentFold::new(),
        metrics: Metrics::new(),
    };
    let mut i: usize = 0;
    assert(log.take(0) =~= Seq::<EventView>::empty());
    while i < events.len()
        invariant
            0 <= i <= events.len(),
            log == log_view(events@),
            f.of(log.take(i as int)),
            tokens_add_up(f.metrics@),
            forall|k: int|
                0 <= k < i ==> fold_log(log.take(k)).room(
                    1,
                    event_bytes((#[trigger] log[k]).kind),
                    event_tokens(log[k].kind),
                ),
        decreases events.len() - i,
    {
        assert(log[i as int] == events@[i as int]@);
        assert(log.take(i + 1).drop_last() =~= log.take(i as int));
        assert(log.take(i + 1).last() == log[i as int]);
        if !f.metrics.has_room(&events[i]) {
            return None;
        }
        f.as_of = events[i].id.0;
        proof {
            lemma_room(f.metrics@, events@[i as int]@, 0, 0, 0);
        }
        f.metrics.fold(&events[i]);
        apply_board(&mut f.board, &events[i]);
        f.agents.apply(&events[i]);
        i = i + 1;
    }
    assert(log.take(i as int) =~= log);
    Some(f)
}

/// Where a key goes among keys in order.
pub open spec fn field_place(fields: Seq<(Seq<char>, JsonView)>, key: Seq<char>, i: int) -> int
    decreases fields.len() - i,
{
    if i < 0 || i >= fields.len() || text_less(key, fields[i].0) {
        i
    } else {
        field_place(fields, key, i + 1)
    }
}

/// Fields with one set: in place of the one with its key, or where the key belongs.
pub open spec fn with_field(
    fields: Seq<(Seq<char>, JsonView)>,
    key: Seq<char>,
    value: JsonView,
) -> Seq<(Seq<char>, JsonView)> {
    match key_at(fields, key, 0) {
        Some(i) => fields.update(i, (key, value)),
        None => fields.insert(field_place(fields, key, 0), (key, value)),
    }
}

/// What the first event of a run carries, with the state of the run; what is no object stays as it
/// is.
pub open spec fn run_of(data: JsonView, state: RunState) -> JsonView {
    match data {
        JsonView::Object(fields) => JsonView::Object(
            with_field(fields, "state"@, JsonView::Text(state.name())),
        ),
        _ => data,
    }
}

fn set_field(fields: &mut Vec<(String, Json)>, key: &str, value: Json)
    ensures
        fields_view(final(fields)@) == with_field(fields_view(old(fields)@), key@, value@),
{
    let ghost before = fields_view(fields@);
    let ghost v = value@;
    proof {
        lemma_fields(fields@);
    }
    match find_key(fields, key) {
        Some(i) => {
            fields[i].1 = value;
            proof {
                lemma_fields(fields@);
                crate::json::lemma_key_at(before, key@, 0);
            }
            assert(fields_view(fields@) =~= before.update(i as int, (key@, v)));
        },
        None => {
            let k = chars_of(key);
            let mut i: usize = 0;
            while i < fields.len() && !precedes(
                k.as_slice(),
                chars_of(fields[i].0.as_str()).as_slice(),
            )
                invariant
                    0 <= i <= fields.len(),
                    k@ == key@,
                    before == fields_view(fields@),
                    before.len() == fields.len(),
                    forall|j: int|
                        0 <= j < fields.len() ==> #[trigger] before[j] == (
                        fields@[j].0@, fields@[j].1@),
                    field_place(before, key@, 0) == field_place(before, key@, i as int),
                decreases fields.len() - i,
            {
                assert(before[i as int].0 == fields@[i as int].0@);
                i = i + 1;
            }
            if i < fields.len() {
                assert(before[i as int].0 == fields@[i as int].0@);
            }
            assert(field_place(before, key@, 0) == i);
            fields.insert(i, (key.to_owned(), value));
            proof {
                lemma_fields(fields@);
            }
            assert(fields_view(fields@) =~= before.insert(i as int, (key@, v)));
        },
    }
}

/// What the first event of a run carries, with the state of the run.
pub fn run_block(header: &RunHeader, state: RunState) -> (j: Json)
    ensures
        j@ == run_of(header.data@, state),
{
    match header.data.clone() {
        Json::Object(fields) => {
            let mut fields = fields;
            set_field(&mut fields, "state", Json::string(state.as_wire_str()));
            Json::Object(fields)
        },
        other => other,
    }
}

/// A board and whose it is.
#[derive(Debug)]
pub struct BoardSnapshot {
    /// The run.
    pub run_id: RunId,
    /// Its goal.
    pub goal: String,
    /// Its seed.
    pub seed: u64,
    /// Its board.
    pub board: Board,
}

/// A run as clients see it.
#[derive(Debug)]
pub struct SnapshotResponse {
    /// The id of the last event.
    pub as_of: u64,
    /// What the first event carries, with the state.
    pub run: Json,
    /// The board.
    pub board: BoardSnapshot,
    /// The agents.
    pub agents: Vec<AgentEntry>,
    /// The metrics.
    pub metrics: RunSummary,
}

/// Makes the snapshot of a run. There is none for a log whose numbers cannot be counted.
pub fn snapshot(header: &RunHeader, state: RunState, events: &Vec<Event>) -> (r: Option<
    SnapshotResponse,
>)
    ensures
        r is Some == countable(log_view(events@)),
        match r {
            Some(s) => {
                let log = log_view(events@);
                &&& s.as_of == if log.len() == 0 {
                    0
                } else {
                    log.last().id.0
                }
                &&& s.run@ == run_of(header.data@, state)
                &&& s.board.run_id == header.run_id
                &&& s.board.goal@ == header.goal@
                &&& s.board.seed == header.seed
                &&& s.board.board@ == replayed(log)
                &&& client_agents(s.agents@) == agents_replayed(log)
                &&& s.metrics.of(fold_log(log))
            },
            None => true,
        },
{
    match fold_events(events) {
        Some(folded) => {
            let metrics = folded.metrics.summary();
            Some(
                SnapshotResponse {
                    as_of: folded.as_of,
                    run: run_block(header, state),
                    board: BoardSnapshot {
                        run_id: header.run_id,
                        goal: header.goal.clone(),
                        seed: header.seed,
                        board: folded.board,
                    },
                    agents: folded.agents.into_entries(),
                    metrics,
                },
            )
        },
        None => None,
    }
}

/// Makes the board snapshot of a run from its log. There is none for a log whose numbers cannot be
/// counted.
pub fn board_snapshot(run_id: RunId, goal: &str, seed: u64, events: &Vec<Event>) -> (r: Option<
    BoardSnapshot,
>)
    ensures
        r is Some == countable(log_view(events@)),
        match r {
            Some(s) => s.run_id == run_id && s.goal@ == goal@ && s.seed == seed && s.board@
                == replayed(log_view(events@)),
            None => true,
        },
{
    match fold_events(events) {
        Some(folded) => Some(
            BoardSnapshot { run_id, goal: goal.to_owned(), seed, board: folded.board },
        ),
        None => None,
    }
}

} // verus!
