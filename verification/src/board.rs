//! The task board and teams.
//!
//! The orchestrator creates, unassigns and cancels tasks; team agents claim open tasks themselves,
//! at most one each, and first claim wins. Eligibility is team membership at the time of the claim.
//! There is no failed state: a struggling task is released. Every transition either happens or is
//! refused with a domain code and a message, and a refusal leaves the board as it was.
use crate::agent::AgentId;
use crate::ids::{EventId, KnowledgeEntryId, TaskId, TeamId};
use crate::text::{dec, dec_text, join, joined, texts};
use vstd::prelude::*;

verus! {

/// Where a task stands.
#[derive(PartialEq, Eq, Debug)]
pub enum TaskState {
    /// Free to claim.
    Open,
    /// Owned by one team agent.
    Claimed {
        /// The claimant.
        by: AgentId,
    },
    /// Completed.
    Done {
        /// The result in words.
        result: String,
        /// The knowledge entry that holds the result.
        result_ref: KnowledgeEntryId,
    },
    /// Given up by the orchestrator.
    Cancelled {
        /// Why.
        reason: String,
    },
}

impl Clone for TaskState {
    fn clone(&self) -> (r: TaskState)
        ensures
            r == *self,
    {
        match self {
            TaskState::Open => TaskState::Open,
            TaskState::Claimed { by } => TaskState::Claimed { by: *by },
            TaskState::Done { result, result_ref } => TaskState::Done {
                result: result.clone(),
                result_ref: *result_ref,
            },
            TaskState::Cancelled { reason } => TaskState::Cancelled { reason: reason.clone() },
        }
    }
}

/// Where a task stands, in specifications.
pub enum StateView {
    /// Free to claim.
    Open,
    /// Owned by one team agent.
    Claimed { by: AgentId },
    /// Completed.
    Done { result: Seq<char>, result_ref: KnowledgeEntryId },
    /// Given up by the orchestrator.
    Cancelled { reason: Seq<char> },
}

impl StateView {
    /// The state as a digest line shows it.
    pub open spec fn label(self) -> Seq<char> {
        match self {
            StateView::Open => "Open"@,
            StateView::Claimed { by } => "Claimed by "@ + by.handle(),
            StateView::Done { .. } => "Done"@,
            StateView::Cancelled { .. } => "Cancelled"@,
        }
    }

    /// Done or cancelled.
    pub open spec fn terminal(self) -> bool {
        self is Done || self is Cancelled
    }
}

impl View for TaskState {
    type V = StateView;

    open spec fn view(&self) -> StateView {
        match self {
            TaskState::Open => StateView::Open,
            TaskState::Claimed { by } => StateView::Claimed { by: *by },
            TaskState::Done { result, result_ref } => StateView::Done {
                result: result@,
                result_ref: *result_ref,
            },
            TaskState::Cancelled { reason } => StateView::Cancelled { reason: reason@ },
        }
    }
}

impl TaskState {
    /// The state as a digest line shows it.
    pub fn digest_label(&self) -> (s: String)
        ensures
            s@ == self@.label(),
    {
        match self {
            TaskState::Open => "Open".to_owned(),
            TaskState::Claimed { by } => {
                let mut s = "Claimed by ".to_owned();
                s.push_str(by.as_str().as_str());
                s
            },
            TaskState::Done { .. } => "Done".to_owned(),
            TaskState::Cancelled { .. } => "Cancelled".to_owned(),
        }
    }

    /// Whether the task is done or cancelled.
    pub fn is_terminal(&self) -> (b: bool)
        ensures
            b == self@.terminal(),
    {
        match self {
            TaskState::Done { .. } => true,
            TaskState::Cancelled { .. } => true,
            _ => false,
        }
    }
}

/// A unit of work on the board.
#[derive(PartialEq, Eq, Debug)]
pub struct Task {
    /// The task's number.
    pub id: TaskId,
    /// The title.
    pub title: String,
    /// What is to be done.
    pub description: String,
    /// Who authored the task.
    pub created_by: AgentId,
    /// The event that recorded the creation.
    pub origin_event: EventId,
    /// The team whose members may claim the task; without one any team agent may.
    pub team: Option<TeamId>,
    /// Where the task stands.
    pub state: TaskState,
}

/// An optional tag, copied.
pub fn copy_tag(team: &Option<TeamId>) -> (r: Option<TeamId>)
    ensures
        r == *team,
{
    match team {
        Some(t) => Some(t.clone()),
        None => None,
    }
}

/// An optional tag in specifications.
pub open spec fn tag_view(team: Option<TeamId>) -> Option<Seq<char>> {
    match team {
        Some(t) => Some(t@),
        None => None,
    }
}

/// The tag as lines show it, `-` for none.
pub open spec fn tag_text(team: Option<Seq<char>>) -> Seq<char> {
    match team {
        Some(t) => t,
        None => "-"@,
    }
}

/// The tag as lines show it, `-` for none.
pub fn tag_str(team: &Option<TeamId>) -> (s: &str)
    ensures
        s@ == tag_text(tag_view(*team)),
{
    match team {
        Some(t) => t.as_str(),
        None => "-",
    }
}

impl Clone for Task {
    fn clone(&self) -> (r: Task)
        ensures
            r == *self,
    {
        Task {
            id: self.id,
            title: self.title.clone(),
            description: self.description.clone(),
            created_by: self.created_by,
            origin_event: self.origin_event,
            team: copy_tag(&self.team),
            state: self.state.clone(),
        }
    }
}

/// A task in specifications.
#[verifier::ext_equal]
pub struct TaskView {
    /// The task's number.
    pub id: TaskId,
    /// The title.
    pub title: Seq<char>,
    /// What is to be done.
    pub description: Seq<char>,
    /// Who authored the task.
    pub created_by: AgentId,
    /// The event that recorded the creation.
    pub origin_event: EventId,
    /// The tag.
    pub team: Option<Seq<char>>,
    /// Where the task stands.
    pub state: StateView,
}

impl View for Task {
    type V = TaskView;

    open spec fn view(&self) -> TaskView {
        TaskView {
            id: self.id,
            title: self.title@,
            description: self.description@,
            created_by: self.created_by,
            origin_event: self.origin_event,
            team: tag_view(self.team),
            state: self.state@,
        }
    }
}

impl TaskView {
    /// `- task <id> [<state>] team:<tag>  "<title>"`, with two spaces before the quoted title.
    pub open spec fn line(self) -> Seq<char> {
        "- task "@ + dec(self.id.0 as nat) + " ["@ + self.state.label() + "] team:"@ + tag_text(
            self.team,
        ) + "  \""@ + self.title + "\""@
    }

    /// The task in another state.
    pub open spec fn in_state(self, state: StateView) -> TaskView {
        TaskView { state, ..self }
    }

    /// Neither done nor cancelled, and tagged with the given team.
    pub open spec fn live_in(self, tag: Seq<char>) -> bool {
        !self.state.terminal() && self.team is Some && self.team->0 == tag
    }
}

impl Task {
    /// The task's digest line.
    pub fn digest_line(&self) -> (s: String)
        ensures
            s@ == self@.line(),
    {
        let mut s = "- task ".to_owned();
        s.push_str(dec_text(self.id.0).as_str());
        s.push_str(" [");
        s.push_str(self.state.digest_label().as_str());
        s.push_str("] team:");
        s.push_str(tag_str(&self.team));
        s.push_str("  \"");
        s.push_str(self.title.as_str());
        s.push_str("\"");
        s
    }
}

/// A team: whom a message to it reaches, and who may claim its tasks. Dissolved teams stay on
/// record.
#[derive(PartialEq, Eq, Debug)]
pub struct Team {
    /// The tag.
    pub id: TeamId,
    /// The members.
    pub members: Vec<AgentId>,
    /// Whether the team has been dissolved.
    pub dissolved: bool,
}

/// What a team is, in specifications.
pub struct TeamView {
    /// The tag.
    pub id: Seq<char>,
    /// The members.
    pub members: Seq<AgentId>,
    /// Whether the team has been dissolved.
    pub dissolved: bool,
}

impl View for Team {
    type V = TeamView;

    open spec fn view(&self) -> TeamView {
        TeamView { id: self.id@, members: self.members@, dissolved: self.dissolved }
    }
}

/// A list of agents, copied.
pub fn copy_agents(v: &Vec<AgentId>) -> (r: Vec<AgentId>)
    ensures
        r@ == v@,
{
    let mut r: Vec<AgentId> = Vec::new();
    let mut i: usize = 0;
    while i < v.len()
        invariant
            0 <= i <= v.len(),
            r@ == v@.take(i as int),
        decreases v.len() - i,
    {
        r.push(v[i]);
        assert(r@ =~= v@.take(i + 1));
        i = i + 1;
    }
    assert(r@ =~= v@);
    r
}

impl Clone for Team {
    fn clone(&self) -> (r: Team)
        ensures
            r@ == self@,
    {
        Team {
            id: self.id.clone(),
            members: copy_agents(&self.members),
            dissolved: self.dissolved,
        }
    }
}

/// Who joins and who leaves when a membership list is replaced.
#[derive(PartialEq, Eq, Debug)]
pub struct MembershipDelta {
    /// New members, in the new list's order.
    pub added: Vec<AgentId>,
    /// Former members, in the old list's order.
    pub removed: Vec<AgentId>,
}

/// A well-formed call that the board refused.
#[derive(PartialEq, Eq, Debug)]
pub struct BoardRejection {
    /// The domain code.
    pub code: &'static str,
    /// The message for people.
    pub message: String,
}

/// A refusal in specifications: code and message.
pub struct Refusal {
    /// The domain code.
    pub code: Seq<char>,
    /// The message for people.
    pub message: Seq<char>,
}

impl View for BoardRejection {
    type V = Refusal;

    open spec fn view(&self) -> Refusal {
        Refusal { code: self.code@, message: self.message@ }
    }
}

/// The members of `a` that `b` lacks, in order.
pub open spec fn missing_from(a: Seq<AgentId>, b: Seq<AgentId>) -> Seq<AgentId>
    decreases a.len(),
{
    if a.len() == 0 {
        Seq::empty()
    } else if b.contains(a.last()) {
        missing_from(a.drop_last(), b)
    } else {
        missing_from(a.drop_last(), b).push(a.last())
    }
}

/// Whether an agent is in a list.
pub fn has_agent(v: &Vec<AgentId>, agent: AgentId) -> (b: bool)
    ensures
        b == v@.contains(agent),
{
    let mut i: usize = 0;
    while i < v.len()
        invariant
            0 <= i <= v.len(),
            forall|k: int| 0 <= k < i ==> v@[k] != agent,
        decreases v.len() - i,
    {
        if v[i] == agent {
            assert(v@[i as int] == agent);
            return true;
        }
        i = i + 1;
    }
    false
}

/// The members of `a` that `b` lacks.
fn difference(a: &Vec<AgentId>, b: &Vec<AgentId>) -> (r: Vec<AgentId>)
    ensures
        r@ == missing_from(a@, b@),
{
    let mut r: Vec<AgentId> = Vec::new();
    let mut i: usize = 0;
    assert(a@.take(0) =~= Seq::<AgentId>::empty());
    while i < a.len()
        invariant
            0 <= i <= a.len(),
            r@ == missing_from(a@.take(i as int), b@),
        decreases a.len() - i,
    {
        assert(a@.take(i + 1).drop_last() =~= a@.take(i as int));
        assert(a@.take(i + 1).last() == a@[i as int]);
        if !has_agent(b, a[i]) {
            r.push(a[i]);
        }
        i = i + 1;
    }
    assert(a@.take(i as int) =~= a@);
    r
}

/// The board in specifications: tasks in id order, teams in formation order.
pub struct BoardView {
    /// The tasks.
    pub tasks: Seq<TaskView>,
    /// The teams.
    pub teams: Seq<TeamView>,
}

/// The first position from `i` on that holds the task with the given id.
pub open spec fn task_at(tasks: Seq<TaskView>, id: TaskId, i: int) -> Option<int>
    decreases tasks.len() - i,
{
    if i < 0 || i >= tasks.len() {
        None
    } else if tasks[i].id == id {
        Some(i)
    } else {
        task_at(tasks, id, i + 1)
    }
}

/// The first position from `i` on that holds a task claimed by the agent.
pub open spec fn claim_at(tasks: Seq<TaskView>, agent: AgentId, i: int) -> Option<int>
    decreases tasks.len() - i,
{
    if i < 0 || i >= tasks.len() {
        None
    } else if tasks[i].state == (StateView::Claimed { by: agent }) {
        Some(i)
    } else {
        claim_at(tasks, agent, i + 1)
    }
}

/// The first position from `i` on that holds the team with the given tag.
pub open spec fn team_at(teams: Seq<TeamView>, tag: Seq<char>, i: int) -> Option<int>
    decreases teams.len() - i,
{
    if i < 0 || i >= teams.len() {
        None
    } else if teams[i].id == tag {
        Some(i)
    } else {
        team_at(teams, tag, i + 1)
    }
}

/// The first position from `i` on whose task has a greater id: where a task with this id goes.
pub open spec fn place(tasks: Seq<TaskView>, id: TaskId, i: int) -> int
    decreases tasks.len() - i,
{
    if i < 0 || i >= tasks.len() {
        tasks.len() as int
    } else if tasks[i].id.0 > id.0 {
        i
    } else {
        place(tasks, id, i + 1)
    }
}

/// What a successful search by id, by claimant, by tag or for a place means.
pub proof fn lemma_searches(b: BoardView, id: TaskId, agent: AgentId, tag: Seq<char>, i: int)
    requires
        i >= 0,
    ensures
        match task_at(b.tasks, id, i) {
            Some(k) => i <= k < b.tasks.len() && b.tasks[k].id == id && forall|j: int|
                i <= j < k ==> b.tasks[j].id != id,
            None => forall|j: int| i <= j < b.tasks.len() ==> b.tasks[j].id != id,
        },
        match claim_at(b.tasks, agent, i) {
            Some(k) => i <= k < b.tasks.len() && b.tasks[k].state == (StateView::Claimed {
                by: agent,
            }),
            None => forall|j: int|
                i <= j < b.tasks.len() ==> b.tasks[j].state != (StateView::Claimed { by: agent }),
        },
        match team_at(b.teams, tag, i) {
            Some(k) => i <= k < b.teams.len() && b.teams[k].id == tag,
            None => forall|j: int| i <= j < b.teams.len() ==> b.teams[j].id != tag,
        },
        i <= b.tasks.len() ==> i <= place(b.tasks, id, i) <= b.tasks.len(),
        forall|j: int| i <= j < place(b.tasks, id, i) ==> b.tasks[j].id.0 <= id.0,
        i <= place(b.tasks, id, i) < b.tasks.len() ==> b.tasks[place(b.tasks, id, i)].id.0 > id.0,
    decreases b.tasks.len() + b.teams.len() - i,
{
    if i < b.tasks.len() || i < b.teams.len() {
        lemma_searches(b, id, agent, tag, i + 1);
    }
}

impl BoardView {
    /// The empty board.
    pub open spec fn empty() -> BoardView {
        BoardView { tasks: Seq::empty(), teams: Seq::empty() }
    }

    /// The position of a task.
    pub open spec fn at(self, id: TaskId) -> Option<int> {
        task_at(self.tasks, id, 0)
    }

    /// The position of the task that an agent claims.
    pub open spec fn claim_of(self, agent: AgentId) -> Option<int> {
        claim_at(self.tasks, agent, 0)
    }

    /// The position of a team.
    pub open spec fn team_of(self, tag: Seq<char>) -> Option<int> {
        team_at(self.teams, tag, 0)
    }

    /// A team exists and has not been dissolved.
    pub open spec fn live_team(self, tag: Seq<char>) -> bool {
        match self.team_of(tag) {
            Some(i) => !self.teams[i].dissolved,
            None => false,
        }
    }

    /// The task is untagged, or the agent is a member of its team.
    pub open spec fn eligible(self, agent: AgentId, task: TaskView) -> bool {
        match task.team {
            None => true,
            Some(tag) => match self.team_of(tag) {
                Some(i) => self.teams[i].members.contains(agent),
                None => false,
            },
        }
    }

    /// The task with the given id is in another state.
    pub open spec fn with_state(self, i: int, state: StateView) -> BoardView {
        BoardView { tasks: self.tasks.update(i, self.tasks[i].in_state(state)), teams: self.teams }
    }

    /// Tasks stand in ascending order of their ids.
    pub open spec fn ordered(self) -> bool {
        forall|i: int, j: int|
            0 <= i < j < self.tasks.len() ==> (#[trigger] self.tasks[i]).id.0 < (
            #[trigger] self.tasks[j]).id.0
    }

    /// No agent claims two tasks.
    pub open spec fn one_claim_each(self) -> bool {
        forall|i: int, j: int|
            0 <= i < self.tasks.len() && 0 <= j < self.tasks.len() && (
            #[trigger] self.tasks[i]).state is Claimed && (#[trigger] self.tasks[j]).state
                == self.tasks[i].state ==> i == j
    }

    /// No two teams share a tag.
    pub open spec fn distinct_teams(self) -> bool {
        forall|i: int, j: int|
            0 <= i < self.teams.len() && 0 <= j < self.teams.len() && (#[trigger] self.teams[i]).id
                == (#[trigger] self.teams[j]).id ==> i == j
    }

    /// A tagged task that is neither done nor cancelled belongs to a team that is not dissolved.
    pub open spec fn live_tags(self) -> bool {
        forall|i: int|
            0 <= i < self.tasks.len() && !(#[trigger] self.tasks[i]).state.terminal()
                && self.tasks[i].team is Some ==> self.live_team(self.tasks[i].team->0)
    }

    /// What holds of every board.
    pub open spec fn wf(self) -> bool {
        self.ordered() && self.one_claim_each() && self.distinct_teams() && self.live_tags()
    }

    // ---- refusals ----------------------------------------------------------

    /// Why a task cannot be created.
    pub open spec fn create_refusal(self, id: TaskId, team: Option<Seq<char>>) -> Option<Refusal> {
        if self.at(id) is Some {
            Some(
                Refusal {
                    code: "duplicate_task"@,
                    message: "task "@ + dec(id.0 as nat) + " already exists"@,
                },
            )
        } else if team is Some && !self.live_team(team->0) {
            Some(
                Refusal {
                    code: "unknown_team"@,
                    message: "team "@ + team->0 + " is not a live team"@,
                },
            )
        } else {
            None
        }
    }

    /// Refusal for a task that is not on the board.
    pub open spec fn unknown_task(id: TaskId) -> Refusal {
        Refusal {
            code: "unknown_task"@,
            message: "task "@ + dec(id.0 as nat) + " does not exist"@,
        }
    }

    /// Refusal for a task that is not open.
    pub open spec fn not_open(task: TaskView) -> Refusal {
        Refusal {
            code: "task_not_open"@,
            message: "task "@ + dec(task.id.0 as nat) + " is not Open ("@ + task.state.label()
                + ")"@,
        }
    }

    /// Why an agent cannot claim a task: it does not exist, is not open, the agent holds another
    /// one, or is not eligible; the first of these that applies.
    pub open spec fn claim_refusal(self, agent: AgentId, id: TaskId) -> Option<Refusal> {
        match self.at(id) {
            None => Some(BoardView::unknown_task(id)),
            Some(i) => if !(self.tasks[i].state is Open) {
                Some(BoardView::not_open(self.tasks[i]))
            } else if self.claim_of(agent) is Some {
                Some(
                    Refusal {
                        code: "already_claimed_other"@,
                        message: agent.handle() + " already claims task "@ + dec(
                            self.tasks[self.claim_of(agent)->0].id.0 as nat,
                        ) + " (at most one claimed task per agent)"@,
                    },
                )
            } else if !self.eligible(agent, self.tasks[i]) {
                Some(
                    Refusal {
                        code: "not_eligible"@,
                        message: agent.handle() + " is not a member of team "@ + tag_text(
                            self.tasks[i].team,
                        ) + ", so cannot claim task "@ + dec(id.0 as nat),
                    },
                )
            } else {
                None
            },
        }
    }

    /// Refusal for an agent that claims no task.
    pub open spec fn no_claim(agent: AgentId, verb: Seq<char>) -> Refusal {
        Refusal {
            code: "task_not_claimed"@,
            message: agent.handle() + " has no claimed task to "@ + verb,
        }
    }

    /// Why a task cannot be unassigned.
    pub open spec fn unassign_refusal(self, id: TaskId) -> Option<Refusal> {
        match self.at(id) {
            None => Some(BoardView::unknown_task(id)),
            Some(i) => if self.tasks[i].state is Claimed {
                None
            } else {
                Some(
                    Refusal {
                        code: "task_not_claimed"@,
                        message: "task "@ + dec(id.0 as nat) + " is not Claimed ("@
                            + self.tasks[i].state.label() + ")"@,
                    },
                )
            },
        }
    }

    /// Why a task cannot be cancelled.
    pub open spec fn cancel_refusal(self, id: TaskId) -> Option<Refusal> {
        match self.at(id) {
            None => Some(BoardView::unknown_task(id)),
            Some(i) => if self.tasks[i].state is Open {
                None
            } else {
                Some(BoardView::not_open(self.tasks[i]))
            },
        }
    }

    /// The ids, in decimal, of the live tasks with the given tag.
    pub open spec fn live_ids(tasks: Seq<TaskView>, tag: Seq<char>) -> Seq<Seq<char>>
        decreases tasks.len(),
    {
        if tasks.len() == 0 {
            Seq::empty()
        } else if tasks.last().live_in(tag) {
            BoardView::live_ids(tasks.drop_last(), tag).push(dec(tasks.last().id.0 as nat))
        } else {
            BoardView::live_ids(tasks.drop_last(), tag)
        }
    }

    /// Refusal for a team that does not exist.
    pub open spec fn unknown_team(tag: Seq<char>) -> Refusal {
        Refusal { code: "unknown_team"@, message: "team "@ + tag + " does not exist"@ }
    }

    /// Why a team cannot be dissolved.
    pub open spec fn dissolve_refusal(self, tag: Seq<char>) -> Option<Refusal> {
        match self.team_of(tag) {
            None => Some(BoardView::unknown_team(tag)),
            Some(i) => if self.teams[i].dissolved {
                Some(
                    Refusal {
                        code: "team_dissolved"@,
                        message: "team "@ + tag + " is already dissolved"@,
                    },
                )
            } else if BoardView::live_ids(self.tasks, tag).len() > 0 {
                Some(
                    Refusal {
                        code: "team_has_live_tasks"@,
                        message: "team "@ + tag + " still has live tasks: "@ + joined(
                            BoardView::live_ids(self.tasks, tag),
                            ", "@,
                        ),
                    },
                )
            } else {
                None
            },
        }
    }

    /// Why a team's members cannot be set.
    pub open spec fn members_refusal(self, tag: Seq<char>) -> Option<Refusal> {
        match self.team_of(tag) {
            None => Some(BoardView::unknown_team(tag)),
            Some(i) => if self.teams[i].dissolved {
                Some(
                    Refusal {
                        code: "team_dissolved"@,
                        message: "team "@ + tag + " is dissolved"@,
                    },
                )
            } else {
                None
            },
        }
    }

    /// Why a team cannot be formed.
    pub open spec fn form_refusal(self, tag: Seq<char>) -> Option<Refusal> {
        if self.team_of(tag) is Some {
            Some(
                Refusal {
                    code: "duplicate_team"@,
                    message: "team "@ + tag + " already exists"@,
                },
            )
        } else {
            None
        }
    }

    // ---- transitions -------------------------------------------------------

    /// The board with one more task.
    pub open spec fn with_task(self, task: TaskView) -> BoardView {
        BoardView {
            tasks: self.tasks.insert(place(self.tasks, task.id, 0), task),
            teams: self.teams,
        }
    }

    /// The board after an agent has claimed a task.
    pub open spec fn claimed(self, agent: AgentId, id: TaskId) -> BoardView {
        self.with_state(self.at(id)->0, StateView::Claimed { by: agent })
    }

    /// The board after an agent has released its task.
    pub open spec fn released(self, agent: AgentId) -> BoardView {
        self.with_state(self.claim_of(agent)->0, StateView::Open)
    }

    /// The board after a task has been unassigned.
    pub open spec fn unassigned(self, id: TaskId) -> BoardView {
        self.with_state(self.at(id)->0, StateView::Open)
    }

    /// The board after an agent has completed its task.
    pub open spec fn completed(
        self,
        agent: AgentId,
        result: Seq<char>,
        result_ref: KnowledgeEntryId,
    ) -> BoardView {
        self.with_state(self.claim_of(agent)->0, StateView::Done { result, result_ref })
    }

    /// The board after a task has been cancelled.
    pub open spec fn cancelled(self, id: TaskId, reason: Seq<char>) -> BoardView {
        self.with_state(self.at(id)->0, StateView::Cancelled { reason })
    }

    /// The board with one more team.
    pub open spec fn formed(self, tag: Seq<char>, members: Seq<AgentId>) -> BoardView {
        BoardView {
            tasks: self.tasks,
            teams: self.teams.push(TeamView { id: tag, members, dissolved: false }),
        }
    }

    /// The board after a team has been dissolved.
    pub open spec fn dissolved(self, tag: Seq<char>) -> BoardView {
        let i = self.team_of(tag)->0;
        BoardView {
            tasks: self.tasks,
            teams: self.teams.update(i, TeamView { dissolved: true, ..self.teams[i] }),
        }
    }

    /// The board after a team's members have been replaced.
    pub open spec fn reteamed(self, tag: Seq<char>, members: Seq<AgentId>) -> BoardView {
        let i = self.team_of(tag)->0;
        BoardView {
            tasks: self.tasks,
            teams: self.teams.update(i, TeamView { members, ..self.teams[i] }),
        }
    }

    // ---- digests -----------------------------------------------------------

    /// The task shows in the digest: for the whole board every task, for an agent its claimed task
    /// and the open tasks it is eligible for.
    pub open spec fn shows(self, for_agent: Option<AgentId>, task: TaskView) -> bool {
        match for_agent {
            None => true,
            Some(agent) => match task.state {
                StateView::Claimed { by } => by == agent,
                StateView::Open => self.eligible(agent, task),
                _ => false,
            },
        }
    }

    /// The digest lines of the first `n` tasks.
    pub open spec fn digest(self, for_agent: Option<AgentId>, n: int) -> Seq<Seq<char>>
        decreases n,
    {
        if n <= 0 {
            Seq::empty()
        } else if self.shows(for_agent, self.tasks[n - 1]) {
            self.digest(for_agent, n - 1).push(self.tasks[n - 1].line())
        } else {
            self.digest(for_agent, n - 1)
        }
    }

    /// The tasks among the first `n` that are neither done nor cancelled.
    pub open spec fn blockers(self, n: int) -> Seq<TaskView>
        decreases n,
    {
        if n <= 0 {
            Seq::empty()
        } else if !self.tasks[n - 1].state.terminal() {
            self.blockers(n - 1).push(self.tasks[n - 1])
        } else {
            self.blockers(n - 1)
        }
    }
}

/// The shared registry of tasks and teams.
#[derive(Debug)]
pub struct Board {
    tasks: Vec<Task>,
    teams: Vec<Team>,
}

impl View for Board {
    type V = BoardView;

    closed spec fn view(&self) -> BoardView {
        BoardView {
            tasks: Seq::new(self.tasks@.len(), |i: int| self.tasks@[i]@),
            teams: Seq::new(self.teams@.len(), |i: int| self.teams@[i]@),
        }
    }
}

/// A refusal.
fn refuse(code: &'static str, message: String) -> (r: BoardRejection)
    ensures
        r@ == (Refusal { code: code@, message: message@ }),
{
    BoardRejection { code, message }
}

/// Three texts in a row.
fn cat3(a: &str, b: &str, c: &str) -> (s: String)
    ensures
        s@ == a@ + b@ + c@,
{
    let mut s = a.to_owned();
    s.push_str(b);
    s.push_str(c);
    s
}

impl Default for Board {
    fn default() -> (b: Board)
        ensures
            b@ == BoardView::empty(),
            b@.wf(),
    {
        Board::new()
    }
}

impl Board {
    /// An empty board.
    pub fn new() -> (b: Board)
        ensures
            b@ == BoardView::empty(),
            b@.wf(),
    {
        let b = Board { tasks: Vec::new(), teams: Vec::new() };
        assert(b@.teams =~= Seq::empty());
        assert(b@.tasks =~= Seq::empty());
        b
    }

    /// The position of a task.
    fn find_task(&self, id: TaskId) -> (r: Option<usize>)
        ensures
            match r {
                Some(i) => self@.at(id) == Some(i as int) && i < self.tasks.len()
                    && self.tasks[i as int].id == id,
                None => self@.at(id) is None,
            },
    {
        let mut i: usize = 0;
        while i < self.tasks.len()
            invariant
                0 <= i <= self.tasks.len(),
                self@.at(id) == task_at(self@.tasks, id, i as int),
            decreases self.tasks.len() - i,
        {
            if self.tasks[i].id == id {
                return Some(i);
            }
            i = i + 1;
        }
        None
    }

    /// The position of the task that an agent claims.
    fn find_claim(&self, agent: AgentId) -> (r: Option<usize>)
        ensures
            match r {
                Some(i) => self@.claim_of(agent) == Some(i as int) && i < self.tasks.len()
                    && self@.tasks[i as int].state == (StateView::Claimed { by: agent }),
                None => self@.claim_of(agent) is None,
            },
    {
        let mut i: usize = 0;
        while i < self.tasks.len()
            invariant
                0 <= i <= self.tasks.len(),
                self@.claim_of(agent) == claim_at(self@.tasks, agent, i as int),
            decreases self.tasks.len() - i,
        {
            if let TaskState::Claimed { by } = &self.tasks[i].state {
                if *by == agent {
                    return Some(i);
                }
            }
            i = i + 1;
        }
        None
    }

    /// The position of a team.
    fn find_team(&self, id: &TeamId) -> (r: Option<usize>)
        ensures
            match r {
                Some(i) => self@.team_of(id@) == Some(i as int) && i < self.teams.len()
                    && self.teams[i as int].id@ == id@,
                None => self@.team_of(id@) is None,
            },
    {
        let mut i: usize = 0;
        while i < self.teams.len()
            invariant
                0 <= i <= self.teams.len(),
                self@.team_of(id@) == team_at(self@.teams, id@, i as int),
            decreases self.teams.len() - i,
        {
            if self.teams[i].id.same(id) {
                return Some(i);
            }
            i = i + 1;
        }
        None
    }

    /// The task with the given id.
    pub fn task(&self, id: TaskId) -> (r: Option<&Task>)
        ensures
            match self@.at(id) {
                Some(i) => r is Some && r->0@ == self@.tasks[i] && self@.tasks[i].id == id,
                None => r is None,
            },
    {
        match self.find_task(id) {
            Some(i) => Some(&self.tasks[i]),
            None => None,
        }
    }

    /// All tasks in id order.
    pub fn tasks(&self) -> (r: &Vec<Task>)
        ensures
            r@.len() == self@.tasks.len(),
            forall|i: int| 0 <= i < r@.len() ==> (#[trigger] r@[i])@ == self@.tasks[i],
    {
        &self.tasks
    }

    /// The task that the agent claims.
    pub fn claimed_by(&self, agent: &AgentId) -> (r: Option<&Task>)
        ensures
            match self@.claim_of(*agent) {
                Some(i) => r is Some && r->0@ == self@.tasks[i] && self@.tasks[i].state == (
                StateView::Claimed { by: *agent }),
                None => r is None,
            },
    {
        match self.find_claim(*agent) {
            Some(i) => Some(&self.tasks[i]),
            None => None,
        }
    }

    /// The team with the given tag.
    pub fn team(&self, id: &TeamId) -> (r: Option<&Team>)
        ensures
            match self@.team_of(id@) {
                Some(i) => r is Some && r->0@ == self@.teams[i] && r->0@.id == id@,
                None => r is None,
            },
    {
        match self.find_team(id) {
            Some(i) => Some(&self.teams[i]),
            None => None,
        }
    }

    /// All teams in formation order, dissolved ones too.
    pub fn teams(&self) -> (r: &Vec<Team>)
        ensures
            r@.len() == self@.teams.len(),
            forall|i: int| 0 <= i < r@.len() ==> (#[trigger] r@[i])@ == self@.teams[i],
    {
        &self.teams
    }

    /// Whether the agent may claim the task as far as teams go.
    pub fn is_eligible(&self, agent: &AgentId, task: &Task) -> (b: bool)
        ensures
            b == self@.eligible(*agent, task@),
    {
        match &task.team {
            None => true,
            Some(tag) => match self.find_team(tag) {
                Some(i) => has_agent(&self.teams[i].members, *agent),
                None => false,
            },
        }
    }

    /// The tasks that keep the run from finishing: those neither done nor cancelled.
    pub fn finish_blockers(&self) -> (r: Vec<&Task>)
        ensures
            r@.len() == self@.blockers(self@.tasks.len() as int).len(),
            forall|i: int|
                0 <= i < r@.len() ==> (#[trigger] r@[i])@ == self@.blockers(
                    self@.tasks.len() as int,
                )[i],
    {
        let mut r: Vec<&Task> = Vec::new();
        let mut i: usize = 0;
        while i < self.tasks.len()
            invariant
                0 <= i <= self.tasks.len(),
                r@.len() == self@.blockers(i as int).len(),
                forall|k: int|
                    0 <= k < r@.len() ==> (#[trigger] r@[k])@ == self@.blockers(i as int)[k],
            decreases self.tasks.len() - i,
        {
            if !self.tasks[i].state.is_terminal() {
                r.push(&self.tasks[i]);
            }
            i = i + 1;
        }
        r
    }

    /// The digest lines, one per task in id order: of the whole board, or of an agent's slice.
    pub fn digest_lines(&self, for_agent: Option<&AgentId>) -> (r: Vec<String>)
        ensures
            texts(r@) == self@.digest(
                match for_agent {
                    Some(a) => Some(*a),
                    None => None,
                },
                self@.tasks.len() as int,
            ),
    {
        let ghost whom = match for_agent {
            Some(a) => Some(*a),
            None => None,
        };
        let mut r: Vec<String> = Vec::new();
        let mut i: usize = 0;
        assert(texts(r@) =~= Seq::<Seq<char>>::empty());
        while i < self.tasks.len()
            invariant
                0 <= i <= self.tasks.len(),
                whom == (match for_agent {
                    Some(a) => Some(*a),
                    None => None,
                }),
                texts(r@) == self@.digest(whom, i as int),
            decreases self.tasks.len() - i,
        {
            let task = &self.tasks[i];
            let shown = match for_agent {
                None => true,
                Some(agent) => match &task.state {
                    TaskState::Claimed { by } => *by == *agent,
                    TaskState::Open => self.is_eligible(agent, task),
                    _ => false,
                },
            };
            if shown {
                let ghost before = r@;
                r.push(task.digest_line());
                assert(texts(r@) =~= texts(before).push(task@.line()));
            }
            i = i + 1;
        }
        r
    }

    // ---- task transitions --------------------------------------------------

    /// Authors a new open task.
    pub fn create_task(
        &mut self,
        id: TaskId,
        title: String,
        description: String,
        created_by: AgentId,
        origin_event: EventId,
        team: Option<TeamId>,
    ) -> (r: Result<(), BoardRejection>)
        requires
            old(self)@.wf(),
        ensures
            final(self)@.wf(),
            match old(self)@.create_refusal(id, tag_view(team)) {
                Some(no) => r is Err && r->Err_0@ == no && final(self)@ == old(self)@,
                None => r is Ok && final(self)@ == old(self)@.with_task(
                    TaskView {
                        id,
                        title: title@,
                        description: description@,
                        created_by,
                        origin_event,
                        team: tag_view(team),
                        state: StateView::Open,
                    },
                ),
            },
    {
        if self.find_task(id).is_some() {
            return Err(
                refuse("duplicate_task", cat3("task ", dec_text(id.0).as_str(), " already exists")),
            );
        }
        if let Some(tag) = &team {
            let live = match self.find_team(tag) {
                Some(i) => !self.teams[i].dissolved,
                None => false,
            };
            if !live {
                return Err(
                    refuse("unknown_team", cat3("team ", tag.as_str(), " is not a live team")),
                );
            }
        }
        let ghost before = self@;
        let task = Task {
            id,
            title,
            description,
            created_by,
            origin_event,
            team,
            state: TaskState::Open,
        };
        let mut i: usize = 0;
        while i < self.tasks.len() && self.tasks[i].id.0 <= id.0
            invariant
                0 <= i <= self.tasks.len(),
                self@ == before,
                place(before.tasks, id, 0) == place(before.tasks, id, i as int),
            decreases self.tasks.len() - i,
        {
            i = i + 1;
        }
        let ghost added = task@;
        self.tasks.insert(i, task);
        assert(self@.teams =~= before.teams);
        assert(self@.tasks =~= before.with_task(added).tasks);
        proof {
            lemma_with_task_wf(before, added);
        }
        Ok(())
    }

    /// A team agent takes an open task.
    pub fn claim(&mut self, agent: &AgentId, id: TaskId) -> (r: Result<(), BoardRejection>)
        requires
            old(self)@.wf(),
        ensures
            final(self)@.wf(),
            match old(self)@.claim_refusal(*agent, id) {
                Some(no) => r is Err && r->Err_0@ == no && final(self)@ == old(self)@,
                None => r is Ok && final(self)@ == old(self)@.claimed(*agent, id),
            },
    {
        let i = match self.find_task(id) {
            Some(i) => i,
            None => {
                return Err(self.refuse_unknown_task(id));
            },
        };
        let open = matches!(self.tasks[i].state, TaskState::Open);
        if !open {
            return Err(self.refuse_not_open(i));
        }
        if let Some(k) = self.find_claim(*agent) {
            let mut message = agent.as_str();
            message.push_str(" already claims task ");
            message.push_str(dec_text(self.tasks[k].id.0).as_str());
            message.push_str(" (at most one claimed task per agent)");
            return Err(refuse("already_claimed_other", message));
        }
        if !self.is_eligible(agent, &self.tasks[i]) {
            let mut message = agent.as_str();
            message.push_str(" is not a member of team ");
            message.push_str(tag_str(&self.tasks[i].team));
            message.push_str(", so cannot claim task ");
            message.push_str(dec_text(id.0).as_str());
            return Err(refuse("not_eligible", message));
        }
        proof {
            lemma_searches(self@, id, *agent, Seq::empty(), 0);
        }
        self.set_state(i, TaskState::Claimed { by: *agent });
        Ok(())
    }

    /// Refusal for a task that is not on the board.
    fn refuse_unknown_task(&self, id: TaskId) -> (r: BoardRejection)
        ensures
            r@ == BoardView::unknown_task(id),
    {
        refuse("unknown_task", cat3("task ", dec_text(id.0).as_str(), " does not exist"))
    }

    /// Refusal for a task that is not open.
    fn refuse_not_open(&self, i: usize) -> (r: BoardRejection)
        requires
            i < self.tasks.len(),
        ensures
            r@ == BoardView::not_open(self@.tasks[i as int]),
    {
        let task = &self.tasks[i];
        let mut message = cat3("task ", dec_text(task.id.0).as_str(), " is not Open (");
        message.push_str(task.state.digest_label().as_str());
        message.push_str(")");
        refuse("task_not_open", message)
    }

    /// Puts a task in another state.
    fn set_state(&mut self, i: usize, state: TaskState)
        requires
            old(self)@.wf(),
            i < old(self).tasks.len(),
            !(old(self)@.tasks[i as int].state.terminal()),
            state is Claimed ==> forall|k: int|
                0 <= k < old(self)@.tasks.len() ==> old(self)@.tasks[k].state != state@,
        ensures
            final(self)@ == old(self)@.with_state(i as int, state@),
            final(self)@.wf(),
    {
        let ghost before = self@;
        let ghost to = state@;
        self.tasks[i].state = state;
        assert(self@.teams =~= before.teams);
        assert(self@.tasks =~= before.tasks.update(i as int, before.tasks[i as int].in_state(to)));
        proof {
            lemma_with_state_wf(before, i as int, to);
        }
    }

    /// The claimant returns its task to open; gives the task's id.
    pub fn release(&mut self, claimant: &AgentId) -> (r: Result<TaskId, BoardRejection>)
        requires
            old(self)@.wf(),
        ensures
            final(self)@.wf(),
            match old(self)@.claim_of(*claimant) {
                None => r is Err && r->Err_0@ == BoardView::no_claim(*claimant, "release"@)
                    && final(self)@ == old(self)@,
                Some(i) => r == Ok::<TaskId, BoardRejection>(old(self)@.tasks[i].id)
                    && final(self)@ == old(self)@.released(*claimant),
            },
    {
        match self.find_claim(*claimant) {
            None => {
                let mut message = claimant.as_str();
                message.push_str(" has no claimed task to ");
                message.push_str("release");
                Err(refuse("task_not_claimed", message))
            },
            Some(i) => {
                let id = self.tasks[i].id;
                self.set_state(i, TaskState::Open);
                Ok(id)
            },
        }
    }

    /// The orchestrator returns a claimed task to open; gives the previous claimant.
    pub fn unassign(&mut self, id: TaskId) -> (r: Result<AgentId, BoardRejection>)
        requires
            old(self)@.wf(),
        ensures
            final(self)@.wf(),
            match old(self)@.unassign_refusal(id) {
                Some(no) => r is Err && r->Err_0@ == no && final(self)@ == old(self)@,
                None => r is Ok && old(self)@.tasks[old(self)@.at(id)->0].state == (
                StateView::Claimed { by: r->Ok_0 }) && final(self)@ == old(self)@.unassigned(id),
            },
    {
        let i = match self.find_task(id) {
            Some(i) => i,
            None => {
                return Err(self.refuse_unknown_task(id));
            },
        };
        let by = match &self.tasks[i].state {
            TaskState::Claimed { by } => Some(*by),
            _ => None,
        };
        match by {
            None => {
                let mut message = cat3("task ", dec_text(id.0).as_str(), " is not Claimed (");
                message.push_str(self.tasks[i].state.digest_label().as_str());
                message.push_str(")");
                Err(refuse("task_not_claimed", message))
            },
            Some(claimant) => {
                self.set_state(i, TaskState::Open);
                Ok(claimant)
            },
        }
    }

    /// The claimant completes its task; gives the task's id.
    pub fn complete(
        &mut self,
        claimant: &AgentId,
        result: String,
        result_ref: KnowledgeEntryId,
    ) -> (r: Result<TaskId, BoardRejection>)
        requires
            old(self)@.wf(),
        ensures
            final(self)@.wf(),
            match old(self)@.claim_of(*claimant) {
                None => r is Err && r->Err_0@ == BoardView::no_claim(*claimant, "complete"@)
                    && final(self)@ == old(self)@,
                Some(i) => r == Ok::<TaskId, BoardRejection>(old(self)@.tasks[i].id)
                    && final(self)@ == old(self)@.completed(*claimant, result@, result_ref),
            },
    {
        match self.find_claim(*claimant) {
            None => {
                let mut message = claimant.as_str();
                message.push_str(" has no claimed task to ");
                message.push_str("complete");
                Err(refuse("task_not_claimed", message))
            },
            Some(i) => {
                let id = self.tasks[i].id;
                self.set_state(i, TaskState::Done { result, result_ref });
                Ok(id)
            },
        }
    }

    /// The orchestrator cancels an open task.
    pub fn cancel(&mut self, id: TaskId, reason: String) -> (r: Result<(), BoardRejection>)
        requires
            old(self)@.wf(),
        ensures
            final(self)@.wf(),
            match old(self)@.cancel_refusal(id) {
                Some(no) => r is Err && r->Err_0@ == no && final(self)@ == old(self)@,
                None => r is Ok && final(self)@ == old(self)@.cancelled(id, reason@),
            },
    {
        let i = match self.find_task(id) {
            Some(i) => i,
            None => {
                return Err(self.refuse_unknown_task(id));
            },
        };
        let open = matches!(self.tasks[i].state, TaskState::Open);
        if !open {
            return Err(self.refuse_not_open(i));
        }
        self.set_state(i, TaskState::Cancelled { reason });
        Ok(())
    }

    // ---- teams -------------------------------------------------------------

    /// Forms a new team. Tags are never used again, not even a dissolved team's.
    pub fn form_team(&mut self, id: TeamId, members: Vec<AgentId>) -> (r: Result<
        (),
        BoardRejection,
    >)
        requires
            old(self)@.wf(),
        ensures
            final(self)@.wf(),
            match old(self)@.form_refusal(id@) {
                Some(no) => r is Err && r->Err_0@ == no && final(self)@ == old(self)@,
                None => r is Ok && final(self)@ == old(self)@.formed(id@, members@),
            },
    {
        if self.find_team(&id).is_some() {
            return Err(
                refuse("duplicate_team", cat3("team ", id.as_str(), " already exists")),
            );
        }
        let ghost before = self@;
        let ghost tag = id@;
        let ghost list = members@;
        self.teams.push(Team { id, members, dissolved: false });
        assert(self@.teams =~= before.formed(tag, list).teams);
        proof {
            lemma_formed_wf(before, tag, list);
        }
        Ok(())
    }

    /// Dissolves a team; refused while it has tasks neither done nor cancelled.
    pub fn dissolve_team(&mut self, id: &TeamId) -> (r: Result<(), BoardRejection>)
        requires
            old(self)@.wf(),
        ensures
            final(self)@.wf(),
            match old(self)@.dissolve_refusal(id@) {
                Some(no) => r is Err && r->Err_0@ == no && final(self)@ == old(self)@,
                None => r is Ok && final(self)@ == old(self)@.dissolved(id@),
            },
    {
        let i = match self.find_team(id) {
            Some(i) => i,
            None => {
                return Err(
                    refuse("unknown_team", cat3("team ", id.as_str(), " does not exist")),
                );
            },
        };
        if self.teams[i].dissolved {
            return Err(
                refuse("team_dissolved", cat3("team ", id.as_str(), " is already dissolved")),
            );
        }
        let live = self.live_task_ids(id);
        if live.len() > 0 {
            let list = join(&live, ", ");
            let mut message = cat3("team ", id.as_str(), " still has live tasks: ");
            message.push_str(list.as_str());
            return Err(refuse("team_has_live_tasks", message));
        }
        let ghost before = self@;
        self.teams[i].dissolved = true;
        assert(self@.teams =~= before.dissolved(id@).teams);
        proof {
            lemma_dissolved_wf(before, id@);
        }
        Ok(())
    }

    /// The ids, in decimal, of the live tasks with the given tag.
    fn live_task_ids(&self, id: &TeamId) -> (r: Vec<String>)
        ensures
            texts(r@) == BoardView::live_ids(self@.tasks, id@),
    {
        let mut r: Vec<String> = Vec::new();
        let mut i: usize = 0;
        assert(self@.tasks.take(0) =~= Seq::<TaskView>::empty());
        assert(texts(r@) =~= Seq::<Seq<char>>::empty());
        while i < self.tasks.len()
            invariant
                0 <= i <= self.tasks.len(),
                texts(r@) == BoardView::live_ids(self@.tasks.take(i as int), id@),
            decreases self.tasks.len() - i,
        {
            let task = &self.tasks[i];
            assert(self@.tasks.take(i + 1).drop_last() =~= self@.tasks.take(i as int));
            assert(self@.tasks.take(i + 1).last() == task@);
            let tagged = match &task.team {
                Some(t) => t.same(id),
                None => false,
            };
            if tagged && !task.state.is_terminal() {
                let ghost before = r@;
                r.push(dec_text(task.id.0));
                assert(texts(r@) =~= texts(before).push(dec(task.id.0 as nat)));
            }
            i = i + 1;
        }
        assert(self@.tasks.take(i as int) =~= self@.tasks);
        r
    }

    /// Replaces a team's members; gives who joined and who left.
    pub fn set_team_members(&mut self, id: &TeamId, members: Vec<AgentId>) -> (r: Result<
        MembershipDelta,
        BoardRejection,
    >)
        requires
            old(self)@.wf(),
        ensures
            final(self)@.wf(),
            match old(self)@.members_refusal(id@) {
                Some(no) => r is Err && r->Err_0@ == no && final(self)@ == old(self)@,
                None => {
                    &&& r is Ok
                    &&& final(self)@ == old(self)@.reteamed(id@, members@)
                    &&& r->Ok_0.added@ == missing_from(
                        members@,
                        old(self)@.teams[old(self)@.team_of(id@)->0].members,
                    )
                    &&& r->Ok_0.removed@ == missing_from(
                        old(self)@.teams[old(self)@.team_of(id@)->0].members,
                        members@,
                    )
                },
            },
    {
        let i = match self.find_team(id) {
            Some(i) => i,
            None => {
                return Err(
                    refuse("unknown_team", cat3("team ", id.as_str(), " does not exist")),
                );
            },
        };
        if self.teams[i].dissolved {
            return Err(refuse("team_dissolved", cat3("team ", id.as_str(), " is dissolved")));
        }
        let ghost before = self@;
        let ghost list = members@;
        let added = difference(&members, &self.teams[i].members);
        let removed = difference(&self.teams[i].members, &members);
        self.teams[i].members = members;
        assert(self@.teams =~= before.reteamed(id@, list).teams);
        proof {
            lemma_reteamed_wf(before, id@, list);
        }
        Ok(MembershipDelta { added, removed })
    }
}

// ---------------------------------------------------------------------------
// What every transition keeps.
// ---------------------------------------------------------------------------

/// With the same teams but for one whose tag is kept, every search by tag finds the same place.
proof fn lemma_same_tags(a: Seq<TeamView>, b: Seq<TeamView>, tag: Seq<char>, i: int)
    requires
        a.len() == b.len(),
        forall|k: int| 0 <= k < a.len() ==> a[k].id == b[k].id,
        i >= 0,
    ensures
        team_at(a, tag, i) == team_at(b, tag, i),
    decreases a.len() - i,
{
    if i < a.len() {
        lemma_same_tags(a, b, tag, i + 1);
    }
}

/// A search by tag among more teams finds what it found among fewer.
proof fn lemma_more_teams(a: Seq<TeamView>, t: TeamView, tag: Seq<char>, i: int)
    requires
        0 <= i,
        team_at(a, tag, i) is Some,
    ensures
        team_at(a.push(t), tag, i) == team_at(a, tag, i),
    decreases a.len() - i,
{
    if i < a.len() && a[i].id != tag {
        lemma_more_teams(a, t, tag, i + 1);
    }
}

/// A new task keeps the rules of the board.
pub proof fn lemma_with_task_wf(b: BoardView, task: TaskView)
    requires
        b.wf(),
        b.create_refusal(task.id, task.team) is None,
        task.state is Open,
    ensures
        b.with_task(task).wf(),
{
    let c = b.with_task(task);
    let k = place(b.tasks, task.id, 0);
    lemma_searches(b, task.id, task.created_by, Seq::empty(), 0);
    assert forall|i: int| 0 <= i < c.tasks.len() implies #[trigger] c.tasks[i] == (if i < k {
        b.tasks[i]
    } else if i == k {
        task
    } else {
        b.tasks[i - 1]
    }) by {}
    assert(c.ordered()) by {
        assert forall|i: int, j: int| 0 <= i < j < c.tasks.len() implies (
        #[trigger] c.tasks[i]).id.0 < (#[trigger] c.tasks[j]).id.0 by {
            if i < k && j == k {
                assert(b.tasks[i].id.0 <= task.id.0);
                assert(b.tasks[i].id != task.id);
            }
        }
    }
    assert(c.one_claim_each());
    assert(c.live_tags());
}

/// A task that changes its state keeps the rules of the board.
pub proof fn lemma_with_state_wf(b: BoardView, i: int, state: StateView)
    requires
        b.wf(),
        0 <= i < b.tasks.len(),
        !b.tasks[i].state.terminal(),
        state is Claimed ==> forall|k: int| 0 <= k < b.tasks.len() ==> b.tasks[k].state != state,
    ensures
        b.with_state(i, state).wf(),
{
    let c = b.with_state(i, state);
    assert(c.ordered());
    assert(c.one_claim_each());
    assert(c.live_tags()) by {
        assert forall|j: int|
            0 <= j < c.tasks.len() && !(#[trigger] c.tasks[j]).state.terminal()
                && c.tasks[j].team is Some implies c.live_team(c.tasks[j].team->0) by {
            assert(b.tasks[j].team == c.tasks[j].team);
            assert(!b.tasks[j].state.terminal());
            assert(b.live_team(b.tasks[j].team->0));
        }
    }
}

/// A new team keeps the rules of the board.
pub proof fn lemma_formed_wf(b: BoardView, tag: Seq<char>, members: Seq<AgentId>)
    requires
        b.wf(),
        b.form_refusal(tag) is None,
    ensures
        b.formed(tag, members).wf(),
{
    let c = b.formed(tag, members);
    lemma_searches(b, TaskId(0), AgentId::Orchestrator, tag, 0);
    assert forall|j: int|
        0 <= j < c.tasks.len() && !(#[trigger] c.tasks[j]).state.terminal()
            && c.tasks[j].team is Some implies c.live_team(c.tasks[j].team->0) by {
        let t = b.tasks[j].team->0;
        assert(b.live_team(t));
        lemma_searches(b, TaskId(0), AgentId::Orchestrator, t, 0);
        lemma_more_teams(b.teams, c.teams.last(), t, 0);
    }
}

/// A live task with a tag shows among the live ids.
proof fn lemma_live_ids(tasks: Seq<TaskView>, tag: Seq<char>, i: int)
    requires
        0 <= i < tasks.len(),
        tasks[i].live_in(tag),
    ensures
        BoardView::live_ids(tasks, tag).len() > 0,
    decreases tasks.len(),
{
    if i < tasks.len() - 1 {
        lemma_live_ids(tasks.drop_last(), tag, i);
    }
}

/// A team that is dissolved keeps the rules of the board.
pub proof fn lemma_dissolved_wf(b: BoardView, tag: Seq<char>)
    requires
        b.wf(),
        b.dissolve_refusal(tag) is None,
    ensures
        b.dissolved(tag).wf(),
{
    let c = b.dissolved(tag);
    lemma_searches(b, TaskId(0), AgentId::Orchestrator, tag, 0);
    assert forall|j: int|
        0 <= j < c.tasks.len() && !(#[trigger] c.tasks[j]).state.terminal()
            && c.tasks[j].team is Some implies c.live_team(c.tasks[j].team->0) by {
        let t = b.tasks[j].team->0;
        assert(b.live_team(t));
        if t == tag {
            lemma_live_ids(b.tasks, tag, j);
        }
        lemma_searches(b, TaskId(0), AgentId::Orchestrator, t, 0);
        lemma_same_tags(b.teams, c.teams, t, 0);
    }
}

/// A team with other members keeps the rules of the board.
pub proof fn lemma_reteamed_wf(b: BoardView, tag: Seq<char>, members: Seq<AgentId>)
    requires
        b.wf(),
        b.members_refusal(tag) is None,
    ensures
        b.reteamed(tag, members).wf(),
{
    let c = b.reteamed(tag, members);
    lemma_searches(b, TaskId(0), AgentId::Orchestrator, tag, 0);
    assert forall|j: int|
        0 <= j < c.tasks.len() && !(#[trigger] c.tasks[j]).state.terminal()
            && c.tasks[j].team is Some implies c.live_team(c.tasks[j].team->0) by {
        let t = b.tasks[j].team->0;
        assert(b.live_team(t));
        lemma_searches(b, TaskId(0), AgentId::Orchestrator, t, 0);
        lemma_same_tags(b.teams, c.teams, t, 0);
    }
}

// ---------------------------------------------------------------------------
// Laws.
// ---------------------------------------------------------------------------

/// `b` is `a` after one accepted transition of the board.
pub open spec fn steps(a: BoardView, b: BoardView) -> bool {
    ||| exists|task: TaskView|
        task.state is Open && a.create_refusal(task.id, task.team) is None && b
            == #[trigger] a.with_task(task)
    ||| exists|agent: AgentId, id: TaskId|
        a.claim_refusal(agent, id) is None && b == #[trigger] a.claimed(agent, id)
    ||| exists|agent: AgentId| a.claim_of(agent) is Some && b == #[trigger] a.released(agent)
    ||| exists|id: TaskId| a.unassign_refusal(id) is None && b == #[trigger] a.unassigned(id)
    ||| exists|agent: AgentId, result: Seq<char>, entry: KnowledgeEntryId|
        a.claim_of(agent) is Some && b == #[trigger] a.completed(agent, result, entry)
    ||| exists|id: TaskId, reason: Seq<char>|
        a.cancel_refusal(id) is None && b == #[trigger] a.cancelled(id, reason)
    ||| exists|tag: Seq<char>, members: Seq<AgentId>|
        a.form_refusal(tag) is None && b == #[trigger] a.formed(tag, members)
    ||| exists|tag: Seq<char>| a.dissolve_refusal(tag) is None && b == #[trigger] a.dissolved(tag)
    ||| exists|tag: Seq<char>, members: Seq<AgentId>|
        a.members_refusal(tag) is None && b == #[trigger] a.reteamed(tag, members)
}

/// The task with the given id is on both boards, the same but for its state, and in the same state
/// if it was done or cancelled.
pub open spec fn keeps_task(a: BoardView, b: BoardView, id: TaskId) -> bool {
    a.at(id) matches Some(i) ==> {
        &&& b.at(id) is Some
        &&& ({
            let old_task = a.tasks[i];
            let new_task = b.tasks[b.at(id)->0];
            &&& new_task == old_task.in_state(new_task.state)
            &&& old_task.state.terminal() ==> new_task == old_task
        })
    }
}

/// Where ids are distinct, a search by id finds the one position.
proof fn lemma_at(b: BoardView, i: int)
    requires
        b.ordered(),
        0 <= i < b.tasks.len(),
    ensures
        b.at(b.tasks[i].id) == Some(i),
{
    lemma_searches(b, b.tasks[i].id, AgentId::Orchestrator, Seq::empty(), 0);
    let k = b.at(b.tasks[i].id)->0;
    if k < i {
        assert(b.tasks[k].id.0 < b.tasks[i].id.0);
    } else if i < k {
        assert(b.tasks[i].id.0 < b.tasks[k].id.0);
    }
}

/// Changing the state of one task keeps every task.
proof fn lemma_with_state_keeps(a: BoardView, k: int, state: StateView, id: TaskId)
    requires
        a.wf(),
        0 <= k < a.tasks.len(),
        !a.tasks[k].state.terminal(),
    ensures
        keeps_task(a, a.with_state(k, state), id),
{
    let b = a.with_state(k, state);
    if a.at(id) is Some {
        lemma_searches(a, id, AgentId::Orchestrator, Seq::empty(), 0);
        let i = a.at(id)->0;
        assert(b.ordered());
        assert(b.tasks[i].id == id);
        lemma_at(b, i);
        assert(a.tasks[i].in_state(a.tasks[i].state) == a.tasks[i]);
    }
}

/// Tasks are never destroyed and never change but for their state, and a task that is done or
/// cancelled stays exactly as it is, whatever happens next.
pub proof fn terminal_stays_terminal(a: BoardView, b: BoardView, id: TaskId)
    requires
        a.wf(),
        steps(a, b),
    ensures
        keeps_task(a, b, id),
{
    if exists|task: TaskView|
        task.state is Open && a.create_refusal(task.id, task.team) is None && b
            == #[trigger] a.with_task(task) {
        let task = choose|task: TaskView|
            task.state is Open && a.create_refusal(task.id, task.team) is None && b
                == #[trigger] a.with_task(task);
        if a.at(id) is Some {
            lemma_searches(a, id, AgentId::Orchestrator, Seq::empty(), 0);
            lemma_searches(a, task.id, AgentId::Orchestrator, Seq::empty(), 0);
            lemma_with_task_wf(a, task);
            let i = a.at(id)->0;
            let k = place(a.tasks, task.id, 0);
            let j = if i < k { i } else { i + 1 };
            assert(b.tasks[j] == a.tasks[i]);
            lemma_at(b, j);
        }
    } else if exists|agent: AgentId, t: TaskId|
        a.claim_refusal(agent, t) is None && b == #[trigger] a.claimed(agent, t) {
        let (agent, t) = choose|agent: AgentId, t: TaskId|
            a.claim_refusal(agent, t) is None && b == #[trigger] a.claimed(agent, t);
        lemma_searches(a, t, agent, Seq::empty(), 0);
        lemma_with_state_keeps(a, a.at(t)->0, StateView::Claimed { by: agent }, id);
    } else if exists|agent: AgentId| a.claim_of(agent) is Some && b == #[trigger] a.released(agent) {
        let agent = choose|agent: AgentId|
            a.claim_of(agent) is Some && b == #[trigger] a.released(agent);
        lemma_searches(a, id, agent, Seq::empty(), 0);
        lemma_with_state_keeps(a, a.claim_of(agent)->0, StateView::Open, id);
    } else if exists|t: TaskId| a.unassign_refusal(t) is None && b == #[trigger] a.unassigned(t) {
        let t = choose|t: TaskId| a.unassign_refusal(t) is None && b == #[trigger] a.unassigned(t);
        lemma_searches(a, t, AgentId::Orchestrator, Seq::empty(), 0);
        lemma_with_state_keeps(a, a.at(t)->0, StateView::Open, id);
    } else if exists|agent: AgentId, result: Seq<char>, entry: KnowledgeEntryId|
        a.claim_of(agent) is Some && b == #[trigger] a.completed(agent, result, entry) {
        let (agent, result, result_ref) = choose|
            agent: AgentId,
            result: Seq<char>,
            entry: KnowledgeEntryId,
        | a.claim_of(agent) is Some && b == #[trigger] a.completed(agent, result, entry);
        lemma_searches(a, id, agent, Seq::empty(), 0);
        lemma_with_state_keeps(a, a.claim_of(agent)->0, StateView::Done { result, result_ref }, id);
    } else if exists|t: TaskId, reason: Seq<char>|
        a.cancel_refusal(t) is None && b == #[trigger] a.cancelled(t, reason) {
        let (t, reason) = choose|t: TaskId, reason: Seq<char>|
            a.cancel_refusal(t) is None && b == #[trigger] a.cancelled(t, reason);
        lemma_searches(a, t, AgentId::Orchestrator, Seq::empty(), 0);
        lemma_with_state_keeps(a, a.at(t)->0, StateView::Cancelled { reason }, id);
    } else {
        assert(b.tasks == a.tasks);
        if a.at(id) is Some {
            let i = a.at(id)->0;
            assert(a.tasks[i].in_state(a.tasks[i].state) == a.tasks[i]);
        }
    }
}

/// A team's tag, once used, stays in use: no later board can form the team again.
pub proof fn tags_are_never_reused(a: BoardView, b: BoardView, tag: Seq<char>)
    requires
        a.wf(),
        steps(a, b),
        a.form_refusal(tag) is Some,
    ensures
        b.form_refusal(tag) is Some,
{
    lemma_searches(a, TaskId(0), AgentId::Orchestrator, tag, 0);
    if exists|t: Seq<char>, members: Seq<AgentId>|
        a.form_refusal(t) is None && b == #[trigger] a.formed(t, members) {
        lemma_more_teams(a.teams, b.teams.last(), tag, 0);
    } else if exists|t: Seq<char>| a.dissolve_refusal(t) is None && b == #[trigger] a.dissolved(t) {
        let t = choose|t: Seq<char>| a.dissolve_refusal(t) is None && b == #[trigger] a.dissolved(t);
        lemma_searches(a, TaskId(0), AgentId::Orchestrator, t, 0);
        lemma_same_tags(a.teams, b.teams, tag, 0);
    } else if exists|t: Seq<char>, members: Seq<AgentId>|
        a.members_refusal(t) is None && b == #[trigger] a.reteamed(t, members) {
        let (t, members) = choose|t: Seq<char>, members: Seq<AgentId>|
            a.members_refusal(t) is None && b == #[trigger] a.reteamed(t, members);
        lemma_searches(a, TaskId(0), AgentId::Orchestrator, t, 0);
        lemma_same_tags(a.teams, b.teams, tag, 0);
    }
}

/// After a claim the task is the claimant's; nobody else can claim it, and the claimant can claim
/// nothing else.
pub proof fn first_claim_wins(a: BoardView, agent: AgentId, id: TaskId, other: AgentId, more: TaskId)
    requires
        a.wf(),
        a.claim_refusal(agent, id) is None,
    ensures
        a.claimed(agent, id).claim_of(agent) == a.at(id),
        a.claimed(agent, id).claim_refusal(other, id) is Some,
        a.claimed(agent, id).claim_refusal(other, id)->0.code == "task_not_open"@,
        a.claimed(agent, id).claim_refusal(agent, more) is Some,
{
    let b = a.claimed(agent, id);
    lemma_searches(a, id, agent, Seq::empty(), 0);
    let i = a.at(id)->0;
    lemma_with_state_wf(a, i, StateView::Claimed { by: agent });
    assert(b.tasks[i].id == id);
    lemma_at(b, i);
    lemma_searches(b, id, agent, Seq::empty(), 0);
    let k = b.claim_of(agent)->0;
    assert(b.tasks[i].state == b.tasks[k].state);
}

/// Releasing a claim undoes it.
pub proof fn release_undoes_claim(a: BoardView, agent: AgentId, id: TaskId)
    requires
        a.wf(),
        a.claim_refusal(agent, id) is None,
    ensures
        a.claimed(agent, id).claim_of(agent) is Some,
        a.claimed(agent, id).released(agent) == a,
{
    first_claim_wins(a, agent, id, agent, id);
    lemma_searches(a, id, agent, Seq::empty(), 0);
    let i = a.at(id)->0;
    assert(a.tasks[i].in_state(StateView::Claimed { by: agent }).in_state(StateView::Open)
        == a.tasks[i]);
    assert(a.claimed(agent, id).released(agent).tasks =~= a.tasks);
}

/// Unassigning a claimed task undoes the claim.
pub proof fn unassign_undoes_claim(a: BoardView, agent: AgentId, id: TaskId)
    requires
        a.wf(),
        a.claim_refusal(agent, id) is None,
    ensures
        a.claimed(agent, id).unassign_refusal(id) is None,
        a.claimed(agent, id).tasks[a.claimed(agent, id).at(id)->0].state == (StateView::Claimed {
            by: agent,
        }),
        a.claimed(agent, id).unassigned(id) == a,
{
    let b = a.claimed(agent, id);
    lemma_searches(a, id, agent, Seq::empty(), 0);
    let i = a.at(id)->0;
    lemma_with_state_wf(a, i, StateView::Claimed { by: agent });
    assert(b.tasks[i].id == id);
    lemma_at(b, i);
    assert(a.tasks[i].in_state(StateView::Claimed { by: agent }).in_state(StateView::Open)
        == a.tasks[i]);
    assert(b.unassigned(id).tasks =~= a.tasks);
}

/// Nothing blocks the finish exactly when every task is done or cancelled.
pub proof fn blockers_are_the_live_tasks(b: BoardView, n: int)
    requires
        0 <= n <= b.tasks.len(),
    ensures
        b.blockers(n).len() == 0 <==> forall|i: int|
            0 <= i < n ==> (#[trigger] b.tasks[i]).state.terminal(),
    decreases n,
{
    if n > 0 {
        blockers_are_the_live_tasks(b, n - 1);
        assert(forall|i: int|
            0 <= i < n - 1 ==> 0 <= i < n && (#[trigger] b.tasks[i]) == b.tasks[i]);
        if b.blockers(n).len() == 0 {
            assert(b.tasks[n - 1].state.terminal());
        }
    }
}

} // verus!
