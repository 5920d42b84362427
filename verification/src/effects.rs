//! What each verb does, told from the caller's arguments, the world before and the world after.
//!
//! The laws speak of tasks, books, entries and events as they stand before and after a call: which
//! of them the call changes, to what, and that everything else stays.
use crate::agent::{handle_agent, handle_reads_back, is_slug, AgentId, Role};
use crate::board::{lemma_searches, missing_from, place, BoardView, StateView, TaskView, TeamView};
use crate::directive::{DirectiveKind, DirectiveTier, DirectiveView, ResolutionView};
use crate::dispatch::{args_step, sought, wanted, Replies};
use crate::event::{EventSource, EventView, KindView, RestoredState};
use crate::ids::{is_tag, DirectiveId, EventId, KnowledgeEntryId, MessageId, TaskId};
use crate::json::{parsed_json, JsonView};
use crate::knowledge::{EntryView, KnowledgeKind, ScoredEntry};
use crate::message::{mail_for, mailed, AddressView, MessageView};
use crate::metrics::others;
use crate::text::texts;
use crate::tools::{
    CancelTaskArgs, ClaimTaskArgs, CompleteTaskArgs, CreateTaskArgs, DeclineDirectiveArgs,
    DissolveTeamArgs, FinishRunArgs, FormTeamArgs, OutcomeView, PostMessageArgs, ReleaseTaskArgs,
    RespecializeArgs, SearchKnowledgeArgs, SetParallelismArgs, SetTeamMembersArgs, SleepAgentArgs,
    SleepArgs, ToolView, UnassignTaskArgs, VerbArgs, WakeAgentArgs, WriteKnowledgeArgs,
};
use crate::verbs::pool_agents;
use crate::world::{lemma_slot_at, slot_at, AgentState, SlotView, WorldView};
use vstd::prelude::*;

verus! {

// ---------------------------------------------------------------------------
// What stays.
// ---------------------------------------------------------------------------

/// The settings and the clockwork of the run are as before.
pub open spec fn calm(w: WorldView, v: WorldView) -> bool {
    &&& v.goal == w.goal
    &&& v.seed == w.seed
    &&& v.now == w.now
    &&& v.orchestrator == w.orchestrator
    &&& v.finishing == w.finishing
    &&& v.harness_error == w.harness_error
    &&& v.first_tick_fired == w.first_tick_fired
    &&& v.forced_tick == w.forced_tick
    &&& v.ticks == w.ticks
    &&& v.llm_calls == w.llm_calls
    &&& v.turns_in_flight == w.turns_in_flight
    &&& v.configured_parallelism == w.configured_parallelism
}

/// Nobody asks to finish, and as many may work as before.
pub open spec fn steady(w: WorldView, v: WorldView) -> bool {
    &&& calm(w, v)
    &&& v.report == w.report
    &&& v.finish_requested == w.finish_requested
    &&& v.effective_parallelism == w.effective_parallelism
    &&& v.permit_debt == w.permit_debt
    &&& v.permits == w.permits
}

/// Nothing was said or learned.
pub open spec fn silent(w: WorldView, v: WorldView) -> bool {
    &&& v.messages == w.messages
    &&& v.mail == w.mail
    &&& v.next_message == w.next_message
    &&& v.store == w.store
}

/// No directive was issued or resolved.
pub open spec fn unsteered(w: WorldView, v: WorldView) -> bool {
    v.directives == w.directives && v.next_directive == w.next_directive
}

/// The event that an agent causes next.
pub open spec fn told(w: WorldView, agent: AgentId, kind: KindView) -> EventView {
    EventView {
        id: EventId(w.next_event),
        at: w.now,
        source: EventSource::Agent(agent),
        kind,
    }
}

/// The log has one more event, which the agent caused.
pub open spec fn tells(w: WorldView, v: WorldView, agent: AgentId, kind: KindView) -> bool {
    v.events == w.events.push(told(w, agent, kind))
}

/// The agent is named as a member of the team with the tag.
pub open spec fn member(b: BoardView, agent: AgentId, tag: Seq<char>) -> bool {
    exists|t: int|
        0 <= t < b.teams.len() && (#[trigger] b.teams[t]).id == tag && b.teams[t].members.contains(
            agent,
        )
}

/// There is a team with the tag that has not been dissolved.
pub open spec fn lives(b: BoardView, tag: Seq<char>) -> bool {
    exists|t: int|
        0 <= t < b.teams.len() && (#[trigger] b.teams[t]).id == tag && !b.teams[t].dissolved
}

/// The agent holds no task.
pub open spec fn free(b: BoardView, agent: AgentId) -> bool {
    forall|k: int|
        0 <= k < b.tasks.len() ==> (#[trigger] b.tasks[k]).state != (StateView::Claimed { by: agent })
}

/// The answer to an accepted call that gives one number.
pub open spec fn gives(key: Seq<char>, n: u64) -> OutcomeView {
    OutcomeView::Accepted { result: JsonView::Object(seq![(key, JsonView::number(n))]) }
}

/// A refusal with the code.
pub open spec fn refuses(r: OutcomeView, code: Seq<char>) -> bool {
    r matches OutcomeView::Rejected { code: c, .. } && c == code
}

// ---------------------------------------------------------------------------
// Searches.
// ---------------------------------------------------------------------------

/// A task is found where it stands.
proof fn lemma_task(b: BoardView, k: int)
    requires
        b.wf(),
        0 <= k < b.tasks.len(),
    ensures
        b.at(b.tasks[k].id) == Some(k),
{
    lemma_searches(b, b.tasks[k].id, AgentId::Orchestrator, Seq::empty(), 0);
    let f = b.at(b.tasks[k].id)->0;
    assert(b.tasks[f].id == b.tasks[k].id);
    if f < k {
        assert(b.tasks[f].id.0 < b.tasks[k].id.0);
    } else if k < f {
        assert(b.tasks[k].id.0 < b.tasks[f].id.0);
    }
}

/// A claim is found where it stands.
proof fn lemma_claim(b: BoardView, k: int, agent: AgentId)
    requires
        b.wf(),
        0 <= k < b.tasks.len(),
        b.tasks[k].state == (StateView::Claimed { by: agent }),
    ensures
        b.claim_of(agent) == Some(k),
{
    lemma_searches(b, b.tasks[k].id, agent, Seq::empty(), 0);
    let f = b.claim_of(agent)->0;
    assert(b.tasks[f].state == b.tasks[k].state);
}

/// An agent without a task has no claim.
proof fn lemma_free(b: BoardView, agent: AgentId)
    ensures
        free(b, agent) <==> b.claim_of(agent) is None,
{
    lemma_searches(b, TaskId(0), agent, Seq::empty(), 0);
}

/// A team is found where it stands.
proof fn lemma_team(b: BoardView, t: int)
    requires
        b.wf(),
        0 <= t < b.teams.len(),
    ensures
        b.team_of(b.teams[t].id) == Some(t),
{
    lemma_searches(b, TaskId(0), AgentId::Orchestrator, b.teams[t].id, 0);
    let f = b.team_of(b.teams[t].id)->0;
    assert(b.teams[f].id == b.teams[t].id);
}

/// A team is live, and an agent its member, as the list of teams says.
proof fn lemma_tag(b: BoardView, agent: AgentId, tag: Seq<char>)
    requires
        b.wf(),
    ensures
        lives(b, tag) <==> b.live_team(tag),
        member(b, agent, tag) <==> (b.team_of(tag) matches Some(i) && b.teams[i].members.contains(
            agent,
        )),
{
    lemma_searches(b, TaskId(0), agent, tag, 0);
    if lives(b, tag) {
        let t = choose|t: int|
            0 <= t < b.teams.len() && (#[trigger] b.teams[t]).id == tag && !b.teams[t].dissolved;
        lemma_team(b, t);
    }
    if member(b, agent, tag) {
        let t = choose|t: int|
            0 <= t < b.teams.len() && (#[trigger] b.teams[t]).id == tag
                && b.teams[t].members.contains(agent);
        lemma_team(b, t);
    }
    if b.team_of(tag) is Some {
        let i = b.team_of(tag)->0;
        assert(b.teams[i].id == tag);
    }
}

/// An agent's books are found where they stand.
proof fn lemma_books(w: WorldView, i: int)
    requires
        w.wf(),
        0 <= i < w.team.len(),
    ensures
        slot_at(w.team, w.team[i].id, 0) == Some(i),
        handle_agent(w.team[i].id.handle()) == Some(w.team[i].id),
        w.has_team_agent(w.team[i].id),
{
    let id = w.team[i].id;
    lemma_slot_at(w.team, id, 0);
    handle_reads_back(id);
    if slot_at(w.team, id, 0) is None {
        assert(w.team[i].id != id);
    }
    let f = slot_at(w.team, id, 0)->0;
    assert(w.team[f].id == id);
}

// ---------------------------------------------------------------------------
// Claiming, completing and releasing.
// ---------------------------------------------------------------------------

/// `claim_task` is accepted exactly for an open task, from an agent that holds none, and only within
/// the task's team; otherwise it is refused with the first of these that fails. The task is then the
/// caller's, who works on it with a clean window; no other task, agent or team changes; and the log
/// says who claimed what.
pub proof fn claims_take_open_tasks(
    w: WorldView,
    role: Role,
    caller: AgentId,
    a: ClaimTaskArgs,
    replies: Replies,
    k: int,
)
    requires
        w.wf(),
        0 <= k < w.board.tasks.len(),
        w.board.tasks[k].id.0 == a.task,
    ensures
        ({
            let (v, r) = args_step(w, role, caller, VerbArgs::ClaimTask(a), replies);
            let task = w.board.tasks[k];
            let inside = task.team matches Some(tag) ==> member(w.board, caller, tag);
            &&& r is Accepted <==> task.state is Open && free(w.board, caller) && inside
            &&& !(task.state is Open) ==> refuses(r, "task_not_open"@)
            &&& task.state is Open && !free(w.board, caller) ==> refuses(r, "already_claimed_other"@)
            &&& task.state is Open && free(w.board, caller) && !inside ==> refuses(
                r,
                "not_eligible"@,
            )
            &&& r is Accepted ==> {
                &&& r == gives("task"@, a.task)
                &&& v.board.tasks == w.board.tasks.update(
                    k,
                    TaskView { state: StateView::Claimed { by: caller }, ..task },
                )
                &&& v.board.teams == w.board.teams
                &&& v.team.len() == w.team.len()
                &&& forall|i: int|
                    0 <= i < w.team.len() ==> #[trigger] v.team[i] == if w.team[i].id == caller {
                        SlotView {
                            state: AgentState::Working { task: TaskId(a.task) },
                            window: Seq::empty(),
                            ..w.team[i]
                        }
                    } else {
                        w.team[i]
                    }
                &&& tells(
                    w,
                    v,
                    caller,
                    KindView::TaskClaimed { task: TaskId(a.task), team: task.team },
                )
                &&& steady(w, v) && silent(w, v) && unsteered(w, v)
                &&& v.next_task == w.next_task
            }
        }),
{
    let (v, r) = args_step(w, role, caller, VerbArgs::ClaimTask(a), replies);
    let task = w.board.tasks[k];
    assert(task.id == TaskId(a.task));
    lemma_task(w.board, k);
    lemma_free(w.board, caller);
    if let Some(tag) = task.team {
        lemma_tag(w.board, caller, tag);
    }
    lemma_slot_at(w.team, caller, 0);
    if r is Accepted {
        assert forall|i: int| 0 <= i < w.team.len() && w.team[i].id == caller implies slot_at(
            w.team,
            caller,
            0,
        ) == Some(i) by {
            lemma_books(w, i);
        }
    }
}

/// A task that is not on the board cannot be claimed, unassigned or cancelled.
pub proof fn unknown_tasks_are_refused(
    w: WorldView,
    role: Role,
    caller: AgentId,
    replies: Replies,
    a: ClaimTaskArgs,
    b: CancelTaskArgs,
    c: UnassignTaskArgs,
)
    requires
        forall|k: int|
            0 <= k < w.board.tasks.len() ==> (#[trigger] w.board.tasks[k]).id.0 != a.task,
        b.task == a.task,
        c.task == a.task,
        c.in_response_to is None,
    ensures
        refuses(
            args_step(w, role, caller, VerbArgs::ClaimTask(a), replies).1,
            "unknown_task"@,
        ),
        refuses(
            args_step(w, role, caller, VerbArgs::CancelTask(b), replies).1,
            "unknown_task"@,
        ),
        refuses(
            args_step(w, role, caller, VerbArgs::UnassignTask(c), replies).1,
            "unknown_task"@,
        ),
{
    lemma_searches(w.board, TaskId(a.task), caller, Seq::empty(), 0);
}

/// `complete_task` is accepted exactly from an agent that holds a task, once its result has been
/// embedded. The task is done with that result and with the entry that keeps it; the caller is idle;
/// the entry holds the result's text, under the caller's name, from this event; and the log says so.
pub proof fn completions_close_the_callers_task(
    w: WorldView,
    role: Role,
    caller: AgentId,
    a: CompleteTaskArgs,
    replies: Replies,
    k: int,
)
    requires
        w.wf(),
        w.store.len() < u64::MAX,
        0 <= k < w.board.tasks.len(),
        w.board.tasks[k].state == (StateView::Claimed { by: caller }),
    ensures
        ({
            let (v, r) = args_step(w, role, caller, VerbArgs::CompleteTask(a), replies);
            let task = w.board.tasks[k];
            let entry = KnowledgeEntryId((w.store.len() + 1) as u64);
            &&& r is Accepted <==> replies.embedded is None
            &&& replies.embedded is Some ==> refuses(r, "internal_error"@)
            &&& r is Accepted ==> {
                &&& r == (OutcomeView::Accepted {
                    result: JsonView::Object(
                        seq![
                            ("result_ref"@, JsonView::number(entry.0)),
                            ("task"@, JsonView::number(task.id.0)),
                        ],
                    ),
                })
                &&& v.board.tasks == w.board.tasks.update(
                    k,
                    TaskView {
                        state: StateView::Done { result: a.result@, result_ref: entry },
                        ..task
                    },
                )
                &&& v.board.teams == w.board.teams
                &&& v.store == w.store.push(
                    EntryView {
                        id: entry,
                        text: a.result@,
                        author: caller,
                        source_event: EventId(w.next_event),
                        kind: KnowledgeKind::TaskCompletion,
                    },
                )
                &&& v.team.len() == w.team.len()
                &&& forall|i: int|
                    0 <= i < w.team.len() ==> #[trigger] v.team[i] == if w.team[i].id == caller {
                        SlotView { state: AgentState::Idle, ..w.team[i] }
                    } else {
                        w.team[i]
                    }
                &&& tells(
                    w,
                    v,
                    caller,
                    KindView::TaskCompleted {
                        task: task.id,
                        result: a.result@,
                        result_ref: entry,
                    },
                )
                &&& steady(w, v) && unsteered(w, v)
                &&& v.messages == w.messages && v.mail == w.mail
                &&& v.next_task == w.next_task && v.next_message == w.next_message
            }
        }),
{
    let (v, r) = args_step(w, role, caller, VerbArgs::CompleteTask(a), replies);
    lemma_claim(w.board, k, caller);
    lemma_slot_at(w.team, caller, 0);
    if r is Accepted {
        assert forall|i: int| 0 <= i < w.team.len() && w.team[i].id == caller implies slot_at(
            w.team,
            caller,
            0,
        ) == Some(i) by {
            lemma_books(w, i);
        }
    }
}

/// `release_task` is accepted from every agent that holds a task. The task is open again, the caller
/// is idle, nothing else changes, and the log says who released what and why.
pub proof fn releases_reopen_the_callers_task(
    w: WorldView,
    role: Role,
    caller: AgentId,
    a: ReleaseTaskArgs,
    replies: Replies,
    k: int,
)
    requires
        w.wf(),
        0 <= k < w.board.tasks.len(),
        w.board.tasks[k].state == (StateView::Claimed { by: caller }),
    ensures
        ({
            let (v, r) = args_step(w, role, caller, VerbArgs::ReleaseTask(a), replies);
            let task = w.board.tasks[k];
            &&& r == gives("task"@, task.id.0)
            &&& v.board.tasks == w.board.tasks.update(
                k,
                TaskView { state: StateView::Open, ..task },
            )
            &&& v.board.teams == w.board.teams
            &&& v.team.len() == w.team.len()
            &&& forall|i: int|
                0 <= i < w.team.len() ==> #[trigger] v.team[i] == if w.team[i].id == caller {
                    SlotView { state: AgentState::Idle, ..w.team[i] }
                } else {
                    w.team[i]
                }
            &&& tells(
                w,
                v,
                caller,
                KindView::TaskReleased {
                    task: task.id,
                    reason: match a.reason {
                        Some(text) => Some(text@),
                        None => None,
                    },
                },
            )
            &&& steady(w, v) && silent(w, v) && unsteered(w, v)
            &&& v.next_task == w.next_task
        }),
{
    lemma_claim(w.board, k, caller);
    lemma_slot_at(w.team, caller, 0);
    assert forall|i: int| 0 <= i < w.team.len() && w.team[i].id == caller implies slot_at(
        w.team,
        caller,
        0,
    ) == Some(i) by {
        lemma_books(w, i);
    }
}

/// An agent that holds no task can neither complete nor release one.
pub proof fn free_agents_have_nothing_to_give(
    w: WorldView,
    role: Role,
    caller: AgentId,
    a: CompleteTaskArgs,
    b: ReleaseTaskArgs,
    replies: Replies,
)
    requires
        free(w.board, caller),
    ensures
        refuses(
            args_step(w, role, caller, VerbArgs::CompleteTask(a), replies).1,
            "task_not_claimed"@,
        ),
        refuses(
            args_step(w, role, caller, VerbArgs::ReleaseTask(b), replies).1,
            "task_not_claimed"@,
        ),
{
    lemma_free(w.board, caller);
}

// ---------------------------------------------------------------------------
// Messages and knowledge.
// ---------------------------------------------------------------------------

/// How often an agent is named in a list.
pub open spec fn times(list: Seq<AgentId>, agent: AgentId) -> nat
    decreases list.len(),
{
    if list.len() == 0 {
        0
    } else {
        times(list.drop_last(), agent) + if list.last() == agent {
            1nat
        } else {
            0nat
        }
    }
}

proof fn lemma_times_push(list: Seq<AgentId>, x: AgentId, agent: AgentId)
    ensures
        times(list.push(x), agent) == times(list, agent) + if x == agent {
            1nat
        } else {
            0nat
        },
{
    assert(list.push(x).drop_last() =~= list);
}

proof fn lemma_times_others(list: Seq<AgentId>, sender: AgentId, agent: AgentId)
    ensures
        times(others(list, Some(sender)), agent) == if agent == sender {
            0
        } else {
            times(list, agent)
        },
    decreases list.len(),
{
    if list.len() > 0 {
        lemma_times_others(list.drop_last(), sender, agent);
        if list.last() != sender {
            lemma_times_push(others(list.drop_last(), Some(sender)), list.last(), agent);
        }
    }
}

proof fn lemma_times_once(list: Seq<AgentId>, agent: AgentId)
    requires
        forall|i: int, j: int| 0 <= i < j < list.len() ==> #[trigger] list[i] != #[trigger] list[j],
    ensures
        times(list, agent) == if list.contains(agent) {
            1nat
        } else {
            0nat
        },
    decreases list.len(),
{
    if list.len() > 0 {
        let front = list.drop_last();
        lemma_times_once(front, agent);
        if list.last() == agent {
            assert(list[list.len() - 1] == agent);
            if front.contains(agent) {
                let i = choose|i: int| 0 <= i < front.len() && front[i] == agent;
                assert(list[i] == list[list.len() - 1]);
            }
        } else if list.contains(agent) {
            let i = choose|i: int| 0 <= i < list.len() && list[i] == agent;
            assert(front[i] == agent);
        } else if front.contains(agent) {
            let i = choose|i: int| 0 <= i < front.len() && front[i] == agent;
            assert(list[i] == agent);
        }
    }
}

proof fn lemma_mailed(
    mail: Map<AgentId, Seq<MessageId>>,
    recipients: Seq<AgentId>,
    message: MessageId,
    agent: AgentId,
)
    ensures
        mail_for(mailed(mail, recipients, message), agent) == mail_for(mail, agent) + Seq::new(
            times(recipients, agent),
            |i: int| message,
        ),
    decreases recipients.len(),
{
    let after = mail_for(mailed(mail, recipients, message), agent);
    let target = mail_for(mail, agent) + Seq::new(times(recipients, agent), |i: int| message);
    if recipients.len() > 0 {
        lemma_mailed(mail, recipients.drop_last(), message, agent);
    }
    assert(after =~= target);
}

/// Who a message reaches: the addressee, or every member of the team, or the orchestrator and every
/// team agent; the sender never.
pub open spec fn reached(w: WorldView, sender: AgentId, address: AddressView, agent: AgentId) -> nat {
    if agent == sender {
        0
    } else {
        match address {
            AddressView::Direct { to } => if agent == to {
                1
            } else {
                0
            },
            AddressView::Team { team } => if w.board.team_of(team) is Some {
                times(w.board.teams[w.board.team_of(team)->0].members, agent)
            } else {
                0
            },
            AddressView::Broadcast => if agent is Orchestrator || exists|i: int|
                0 <= i < w.team.len() && (#[trigger] w.team[i]).id == agent {
                1
            } else {
                0
            },
        }
    }
}

proof fn lemma_reached(w: WorldView, sender: AgentId, address: AddressView, agent: AgentId)
    requires
        w.wf(),
    ensures
        times(w.recipients(sender, address), agent) == reached(w, sender, address, agent),
{
    match address {
        AddressView::Direct { to } => {
            let all = seq![to];
            assert(all.drop_last() =~= Seq::<AgentId>::empty());
            reveal_with_fuel(times, 2);
            lemma_times_others(all, sender, agent);
        },
        AddressView::Team { team } => {
            let all = match w.board.team_of(team) {
                Some(i) => w.board.teams[i].members,
                None => Seq::empty(),
            };
            lemma_times_others(all, sender, agent);
        },
        AddressView::Broadcast => {
            let all = seq![AgentId::Orchestrator] + w.team_ids();
            lemma_times_others(all, sender, agent);
            assert forall|i: int, j: int| 0 <= i < j < all.len() implies #[trigger] all[i]
                != #[trigger] all[j] by {
                assert(all[j] == w.team[j - 1].id);
                if i > 0 {
                    assert(all[i] == w.team[i - 1].id);
                }
            }
            lemma_times_once(all, agent);
            if agent is Orchestrator {
                assert(all[0] == agent);
            }
            if exists|i: int| 0 <= i < w.team.len() && (#[trigger] w.team[i]).id == agent {
                let i = choose|i: int| 0 <= i < w.team.len() && (#[trigger] w.team[i]).id == agent;
                assert(all[i + 1] == agent);
            }
            if all.contains(agent) {
                let i = choose|i: int| 0 <= i < all.len() && all[i] == agent;
                if i > 0 {
                    assert(w.team[i - 1].id == agent);
                }
            }
        },
    }
}

/// The address that the arguments of a message spell out.
pub open spec fn spelled(w: WorldView, a: PostMessageArgs, address: AddressView) -> bool {
    match address {
        AddressView::Direct { to } => {
            &&& a.to matches Some(handle) && handle@ == to.handle()
            &&& a.team is None && a.broadcast != Some(true)
            &&& to is Orchestrator || exists|i: int|
                0 <= i < w.team.len() && (#[trigger] w.team[i]).id == to
        },
        AddressView::Team { team } => {
            &&& a.team matches Some(tag) && tag@ == team
            &&& a.to is None && a.broadcast != Some(true)
            &&& is_tag(team) && lives(w.board, team)
        },
        AddressView::Broadcast => a.to is None && a.team is None && a.broadcast == Some(true),
    }
}

/// `post_message` with a good address is accepted once its body has been embedded. The message gets
/// the next number and is kept with its sender, address and body and with the entry that holds the
/// body; it is put last on the queue of everyone it reaches, and on nobody else's; and the log says
/// so.
pub proof fn messages_reach_their_readers(
    w: WorldView,
    role: Role,
    caller: AgentId,
    a: PostMessageArgs,
    replies: Replies,
    address: AddressView,
    reader: AgentId,
)
    requires
        w.wf(),
        w.store.len() < u64::MAX,
        w.next_message < u64::MAX,
        spelled(w, a, address),
    ensures
        ({
            let (v, r) = args_step(w, role, caller, VerbArgs::PostMessage(a), replies);
            let entry = KnowledgeEntryId((w.store.len() + 1) as u64);
            let id = MessageId(w.next_message);
            &&& r is Accepted <==> replies.embedded is None
            &&& replies.embedded is Some ==> refuses(r, "internal_error"@)
            &&& r is Accepted ==> {
                &&& r == gives("message"@, w.next_message)
                &&& v.next_message == w.next_message + 1
                &&& v.messages == w.messages.push(
                    MessageView { id, sender: caller, address, body: a.body@, knowledge_ref: entry },
                )
                &&& v.store == w.store.push(
                    EntryView {
                        id: entry,
                        text: a.body@,
                        author: caller,
                        source_event: EventId(w.next_event),
                        kind: KnowledgeKind::Message,
                    },
                )
                &&& mail_for(v.mail, reader) == mail_for(w.mail, reader) + Seq::new(
                    reached(w, caller, address, reader),
                    |i: int| id,
                )
                &&& tells(
                    w,
                    v,
                    caller,
                    KindView::MessageSent {
                        message: id,
                        address,
                        body: a.body@,
                        knowledge_ref: entry,
                    },
                )
                &&& steady(w, v) && unsteered(w, v)
                &&& v.board == w.board && v.team == w.team && v.next_task == w.next_task
            }
        }),
{
    let (v, r) = args_step(w, role, caller, VerbArgs::PostMessage(a), replies);
    match address {
        AddressView::Direct { to } => {
            handle_reads_back(to);
            if !(to is Orchestrator) {
                let i = choose|i: int| 0 <= i < w.team.len() && (#[trigger] w.team[i]).id == to;
                lemma_books(w, i);
            }
        },
        AddressView::Team { team } => lemma_tag(w.board, caller, team),
        AddressView::Broadcast => {},
    }
    if r is Accepted {
        lemma_reached(w, caller, address, reader);
        lemma_mailed(w.mail, w.recipients(caller, address), MessageId(w.next_message), reader);
    }
}

/// A message without exactly one form of address is refused, and so is one to a meta-agent, to a
/// team agent that is not in the pool, or to a team that does not live.
pub proof fn bad_addresses_are_refused(
    w: WorldView,
    role: Role,
    caller: AgentId,
    a: PostMessageArgs,
    replies: Replies,
    agent: AgentId,
)
    requires
        w.wf(),
    ensures
        ({
            let r = args_step(w, role, caller, VerbArgs::PostMessage(a), replies).1;
            let direct: int = if a.to is Some {
                1
            } else {
                0
            };
            let tagged: int = if a.team is Some {
                1
            } else {
                0
            };
            let open: int = if a.broadcast == Some(true) {
                1
            } else {
                0
            };
            &&& direct + tagged + open != 1 ==> refuses(r, "invalid_address"@)
            &&& direct + tagged + open == 1 && (a.to matches Some(h) && h@ == agent.handle()) ==> {
                &&& agent is Meta ==> refuses(r, "invalid_address"@)
                &&& agent is Team && (forall|i: int|
                    0 <= i < w.team.len() ==> (#[trigger] w.team[i]).id != agent) ==> refuses(
                    r,
                    "unknown_agent"@,
                )
            }
            &&& direct + tagged + open == 1 && (a.team matches Some(t) && !(is_tag(t@) && lives(
                w.board,
                t@,
            ))) ==> refuses(r, "unknown_team"@)
        }),
{
    handle_reads_back(agent);
    lemma_slot_at(w.team, agent, 0);
    if let Some(t) = a.team {
        lemma_tag(w.board, caller, t@);
    }
}

/// `write_knowledge` keeps the text, once it has been embedded, as a note of the caller's from this
/// event, under the next number, and logs it; nothing else changes.
pub proof fn notes_are_kept(
    w: WorldView,
    role: Role,
    caller: AgentId,
    a: WriteKnowledgeArgs,
    replies: Replies,
)
    requires
        w.wf(),
        w.store.len() < u64::MAX,
    ensures
        ({
            let (v, r) = args_step(w, role, caller, VerbArgs::WriteKnowledge(a), replies);
            let entry = KnowledgeEntryId((w.store.len() + 1) as u64);
            &&& r is Accepted <==> replies.embedded is None
            &&& replies.embedded is Some ==> refuses(r, "internal_error"@)
            &&& r is Accepted ==> {
                &&& r == gives("entry"@, entry.0)
                &&& v.store == w.store.push(
                    EntryView {
                        id: entry,
                        text: a.text@,
                        author: caller,
                        source_event: EventId(w.next_event),
                        kind: KnowledgeKind::Note,
                    },
                )
                &&& tells(w, v, caller, KindView::KnowledgeWritten { entry, text: a.text@ })
                &&& steady(w, v) && unsteered(w, v)
                &&& v.board == w.board && v.team == w.team && v.next_task == w.next_task
                &&& v.messages == w.messages && v.mail == w.mail
                &&& v.next_message == w.next_message
            }
        }),
{
}

/// An item of an answer shows a hit: the entry's number, author, kind and text, and its score.
pub open spec fn shows_hit(item: JsonView, hit: ScoredEntry) -> bool {
    &&& item.get("entry"@) == Some(JsonView::number(hit.entry.id.0))
    &&& item.get("author"@) == Some(JsonView::Text(hit.entry.author.handle()))
    &&& item.get("kind"@) == Some(
        JsonView::Text(
            match hit.entry.kind {
                KnowledgeKind::TaskCompletion => "TaskCompletion"@,
                KnowledgeKind::Message => "Message"@,
                KnowledgeKind::Note => "Note"@,
            },
        ),
    )
    &&& item.get("text"@) == Some(JsonView::Text(hit.entry.text@))
    &&& item.get("score"@) matches Some(JsonView::Number { text, .. }) && text == hit.rounded@
}

/// `search_knowledge` changes nothing and answers with every hit of the search, in their order, each
/// with its number, author, kind, score and text; a failed search is refused.
pub proof fn searches_show_every_hit(
    w: WorldView,
    role: Role,
    caller: AgentId,
    a: SearchKnowledgeArgs,
    replies: Replies,
)
    ensures
        ({
            let (v, r) = args_step(w, role, caller, VerbArgs::SearchKnowledge(a), replies);
            &&& v == w
            &&& match replies.hits {
                Ok(list) => r matches OutcomeView::Accepted { result } && {
                    &&& result.get("hits"@) matches Some(JsonView::Array(items))
                    &&& items.len() == list@.len()
                    &&& forall|i: int|
                        0 <= i < list@.len() ==> shows_hit(#[trigger] items[i], list@[i])
                },
                Err(_) => refuses(r, "internal_error"@),
            }
        }),
{
    reveal_strlit("author");
    reveal_strlit("entry");
    reveal_strlit("kind");
    reveal_strlit("score");
    reveal_strlit("text");
    let (v, r) = args_step(w, role, caller, VerbArgs::SearchKnowledge(a), replies);
    if let Ok(list) = replies.hits {
        let result = r->result;
        let items = result.get("hits"@)->0->Array_0;
        assert forall|i: int| 0 <= i < list@.len() implies shows_hit(
            #[trigger] items[i],
            list@[i],
        ) by {
            let fields = items[i]->Object_0;
            assert(fields[0].0 == "author"@ && fields[1].0 == "entry"@ && fields[2].0 == "kind"@
                && fields[3].0 == "score"@ && fields[4].0 == "text"@);
            assert("author"@[0] == 'a' && "entry"@[0] == 'e' && "kind"@[0] == 'k' && "score"@[0]
                == 's' && "text"@[0] == 't');
            reveal_with_fuel(crate::json::key_at, 6);
        }
    }
}

/// A search asks for the query as it was given, and for as many hits as the caller wants, but for at
/// least one and at most ten, and for three where the caller does not say.
pub proof fn searches_ask_for_a_few(
    tools: Seq<ToolView>,
    name: Seq<char>,
    a: SearchKnowledgeArgs,
)
    requires
        crate::tools::offers(tools, name),
    ensures
        sought(tools, name, Ok(VerbArgs::SearchKnowledge(a))) matches Some((query, k)) && {
            &&& query == a.query@
            &&& 1 <= k <= 10
            &&& a.k is None ==> k == 3
            &&& a.k matches Some(n) ==> {
                &&& 1 <= n <= 10 ==> k == n
                &&& n == 0 ==> k == 1
                &&& n > 10 ==> k == 10
            }
        },
{
}

/// What is embedded before a call is what the call keeps: the result of a task that the caller holds,
/// the body of a message, or a note; nothing for any other call.
#[verifier::rlimit(40)]
pub proof fn kept_texts_are_embedded(
    w: WorldView,
    tools: Seq<ToolView>,
    role: Role,
    caller: AgentId,
    name: Seq<char>,
    args: VerbArgs,
    replies: Replies,
)
    requires
        w.wf(),
        crate::tools::offers(tools, name),
        replies.embedded is None,
    ensures
        ({
            let v = args_step(w, role, caller, args, replies).0;
            match wanted(w, tools, caller, name, Ok(args)) {
                Some(text) => v.store.len() == w.store.len() + 1 && v.store.last().text == text
                    && v.store.last().author == caller && v.store.drop_last() == w.store,
                None => v.store == w.store,
            }
        }),
{
    let v = args_step(w, role, caller, args, replies).0;
    if let Some(text) = wanted(w, tools, caller, name, Ok(args)) {
        assert(v.store.drop_last() =~= w.store);
    }
}

// ---------------------------------------------------------------------------
// Tasks and teams.
// ---------------------------------------------------------------------------

/// `create_task` is accepted without a tag or with that of a live team. A new open task then stands on
/// the board under the next number, with the title, the description and the tag as they were given,
/// and all others stand as before; the log says so.
pub proof fn created_tasks_are_open(
    w: WorldView,
    role: Role,
    caller: AgentId,
    a: CreateTaskArgs,
    replies: Replies,
)
    requires
        w.wf(),
        w.next_task < u64::MAX,
        forall|k: int|
            0 <= k < w.board.tasks.len() ==> (#[trigger] w.board.tasks[k]).id.0 < w.next_task,
    ensures
        ({
            let (v, r) = args_step(w, role, caller, VerbArgs::CreateTask(a), replies);
            let team = match a.team {
                Some(tag) => Some(tag@),
                None => None,
            };
            &&& r is Accepted <==> (team matches Some(tag) ==> is_tag(tag) && lives(w.board, tag))
            &&& !(r is Accepted) ==> refuses(r, "unknown_team"@)
            &&& r is Accepted ==> {
                &&& r == gives("task"@, w.next_task)
                &&& v.next_task == w.next_task + 1
                &&& v.board.tasks == w.board.tasks.push(
                    TaskView {
                        id: TaskId(w.next_task),
                        title: a.title@,
                        description: a.description@,
                        created_by: caller,
                        origin_event: EventId(w.next_event),
                        team,
                        state: StateView::Open,
                    },
                )
                &&& v.board.teams == w.board.teams
                &&& tells(
                    w,
                    v,
                    caller,
                    KindView::TaskCreated {
                        task: TaskId(w.next_task),
                        title: a.title@,
                        description: a.description@,
                        team,
                    },
                )
                &&& steady(w, v) && silent(w, v) && unsteered(w, v) && v.team == w.team
            }
        }),
{
    let (v, r) = args_step(w, role, caller, VerbArgs::CreateTask(a), replies);
    let id = TaskId(w.next_task);
    lemma_searches(w.board, id, caller, Seq::empty(), 0);
    if let Some(tag) = a.team {
        lemma_tag(w.board, caller, tag@);
    }
    assert(w.board.at(id) is None);
    let n = place(w.board.tasks, id, 0);
    if n < w.board.tasks.len() {
        assert(w.board.tasks[n].id.0 < w.next_task);
    }
    if r is Accepted {
        assert(v.board.tasks =~= w.board.tasks.push(v.board.tasks[n]));
    }
}

/// `cancel_task` is accepted exactly for an open task, which is then cancelled for the reason given;
/// nothing else changes, and the log says so.
pub proof fn cancelled_tasks_were_open(
    w: WorldView,
    role: Role,
    caller: AgentId,
    a: CancelTaskArgs,
    replies: Replies,
    k: int,
)
    requires
        w.wf(),
        0 <= k < w.board.tasks.len(),
        w.board.tasks[k].id.0 == a.task,
    ensures
        ({
            let (v, r) = args_step(w, role, caller, VerbArgs::CancelTask(a), replies);
            let task = w.board.tasks[k];
            &&& r is Accepted <==> task.state is Open
            &&& !(r is Accepted) ==> refuses(r, "task_not_open"@)
            &&& r is Accepted ==> {
                &&& r == gives("task"@, a.task)
                &&& v.board.tasks == w.board.tasks.update(
                    k,
                    TaskView { state: StateView::Cancelled { reason: a.reason@ }, ..task },
                )
                &&& v.board.teams == w.board.teams
                &&& tells(
                    w,
                    v,
                    caller,
                    KindView::TaskCancelled { task: TaskId(a.task), reason: a.reason@ },
                )
                &&& steady(w, v) && silent(w, v) && unsteered(w, v)
                &&& v.team == w.team && v.next_task == w.next_task
            }
        }),
{
    assert(w.board.tasks[k].id == TaskId(a.task));
    lemma_task(w.board, k);
}

/// A cited directive can be acted on: it is a judgment directive that is pending.
pub open spec fn citable(w: WorldView, raw: u64) -> bool {
    exists|d: int|
        0 <= d < w.directives.len() && (#[trigger] w.directives[d]).id.0 == raw
            && w.directives[d].tier is Judgment && w.directives[d].state is Pending
}

/// No two directives share a number.
pub open spec fn apart(directives: Seq<DirectiveView>) -> bool {
    forall|d: int, e: int|
        0 <= d < directives.len() && 0 <= e < directives.len() && (#[trigger] directives[d]).id == (
        #[trigger] directives[e]).id ==> d == e
}

proof fn lemma_directive(directives: Seq<DirectiveView>, id: DirectiveId, i: int)
    requires
        i >= 0,
    ensures
        match crate::verbs::directive_at(directives, id, i) {
            Some(d) => i <= d < directives.len() && directives[d].id == id,
            None => forall|d: int| i <= d < directives.len() ==> (#[trigger] directives[d]).id != id,
        },
    decreases directives.len() - i,
{
    if i < directives.len() {
        lemma_directive(directives, id, i + 1);
    }
}

proof fn lemma_citation(w: WorldView, cite: Option<u64>)
    requires
        apart(w.directives),
    ensures
        crate::verbs::citation(w, cite) is Ok <==> (cite matches Some(raw) ==> citable(w, raw)),
        crate::verbs::citation(w, cite) matches Ok(c) ==> c == match cite {
            Some(raw) => Some(DirectiveId(raw)),
            None => None,
        },
{
    if let Some(raw) = cite {
        lemma_directive(w.directives, DirectiveId(raw), 0);
        if citable(w, raw) {
            let d = choose|d: int|
                0 <= d < w.directives.len() && (#[trigger] w.directives[d]).id.0 == raw
                    && w.directives[d].tier is Judgment && w.directives[d].state is Pending;
            assert(w.directives[d].id == DirectiveId(raw));
        }
    }
}

/// The cited directive, and no other, counts as acted on by the caller.
pub open spec fn answered(w: WorldView, v: WorldView, caller: AgentId, cite: Option<u64>) -> bool {
    &&& v.next_directive == w.next_directive
    &&& v.directives.len() == w.directives.len()
    &&& forall|d: int|
        0 <= d < w.directives.len() ==> #[trigger] v.directives[d] == if cite == Some(
            w.directives[d].id.0,
        ) {
            DirectiveView {
                state: ResolutionView::Fulfilled { by: caller },
                ..w.directives[d]
            }
        } else {
            w.directives[d]
        }
}

/// The event of a call, and behind it that of the directive that the call answers, if it cites one.
pub open spec fn tells_in_answer(
    w: WorldView,
    v: WorldView,
    caller: AgentId,
    kind: KindView,
    cite: Option<u64>,
) -> bool {
    let first = w.events.push(told(w, caller, kind));
    match cite {
        None => v.events == first,
        Some(raw) => v.events == first.push(
            EventView {
                id: EventId((w.next_event + 1) as u64),
                at: w.now,
                source: EventSource::Agent(caller),
                kind: KindView::DirectiveFulfilled { directive: DirectiveId(raw), by: caller },
            },
        ),
    }
}

/// `unassign_task` is accepted exactly for a claimed task. The task is open again; its claimant is
/// idle if it worked on it, and goes on sleeping if it slept; the log says whose it was and why; and
/// a cited directive counts as acted on.
pub proof fn unassigned_tasks_were_claimed(
    w: WorldView,
    role: Role,
    caller: AgentId,
    a: UnassignTaskArgs,
    replies: Replies,
    k: int,
)
    requires
        w.wf(),
        apart(w.directives),
        0 <= k < w.board.tasks.len(),
        w.board.tasks[k].id.0 == a.task,
    ensures
        ({
            let (v, r) = args_step(w, role, caller, VerbArgs::UnassignTask(a), replies);
            let task = w.board.tasks[k];
            let cited = a.in_response_to matches Some(raw) ==> citable(w, raw);
            &&& r is Accepted <==> cited && task.state is Claimed
            &&& cited && !(task.state is Claimed) ==> refuses(r, "task_not_claimed"@)
            &&& r is Accepted ==> (task.state matches StateView::Claimed { by } && {
                &&& r == (OutcomeView::Accepted {
                    result: JsonView::Object(
                        seq![
                            ("prev_claimant"@, JsonView::Text(by.handle())),
                            ("task"@, JsonView::number(a.task)),
                        ],
                    ),
                })
                &&& v.board.tasks == w.board.tasks.update(
                    k,
                    TaskView { state: StateView::Open, ..task },
                )
                &&& v.board.teams == w.board.teams
                &&& v.team.len() == w.team.len()
                &&& forall|i: int|
                    0 <= i < w.team.len() ==> #[trigger] v.team[i] == if w.team[i].id == by
                        && w.team[i].state == (AgentState::Working { task: TaskId(a.task) }) {
                        SlotView { state: AgentState::Idle, ..w.team[i] }
                    } else {
                        w.team[i]
                    }
                &&& tells_in_answer(
                    w,
                    v,
                    caller,
                    KindView::TaskUnassigned {
                        task: TaskId(a.task),
                        prev_claimant: by,
                        reason: match a.reason {
                            Some(text) => Some(text@),
                            None => None,
                        },
                        via_directive: match a.in_response_to {
                            Some(raw) => Some(DirectiveId(raw)),
                            None => None,
                        },
                    },
                    a.in_response_to,
                )
                &&& answered(w, v, caller, a.in_response_to)
                &&& steady(w, v) && silent(w, v) && v.next_task == w.next_task
            })
        }),
{
    let (v, r) = args_step(w, role, caller, VerbArgs::UnassignTask(a), replies);
    let task = w.board.tasks[k];
    assert(task.id == TaskId(a.task));
    lemma_task(w.board, k);
    lemma_citation(w, a.in_response_to);
    if r is Accepted {
        let by = task.state->Claimed_by;
        lemma_slot_at(w.team, by, 0);
        assert forall|i: int| 0 <= i < w.team.len() && w.team[i].id == by implies slot_at(
            w.team,
            by,
            0,
        ) == Some(i) by {
            lemma_books(w, i);
        }
        if let Some(raw) = a.in_response_to {
            lemma_directive(w.directives, DirectiveId(raw), 0);
        }
    }
}

/// The handles name these agents of the pool, in order.
pub open spec fn names(w: WorldView, handles: Seq<String>, members: Seq<AgentId>) -> bool {
    &&& members.len() == handles.len()
    &&& forall|i: int|
        0 <= i < handles.len() ==> (#[trigger] handles[i])@ == members[i].handle() && exists|s: int|
            0 <= s < w.team.len() && (#[trigger] w.team[s]).id == members[i]
}

proof fn lemma_names(w: WorldView, handles: Seq<String>, members: Seq<AgentId>, n: int)
    requires
        w.wf(),
        names(w, handles, members),
        0 <= n <= handles.len(),
    ensures
        pool_agents(w, texts(handles).take(n)) == Ok::<Seq<AgentId>, OutcomeView>(members.take(n)),
    decreases n,
{
    let all = texts(handles);
    if n == 0 {
        assert(members.take(0) =~= Seq::<AgentId>::empty());
    } else {
        lemma_names(w, handles, members, n - 1);
        assert(all.take(n).drop_last() =~= all.take(n - 1));
        assert(all.take(n).last() == handles[n - 1]@);
        let s = choose|s: int|
            0 <= s < w.team.len() && (#[trigger] w.team[s]).id == members[n - 1];
        lemma_books(w, s);
        assert(members.take(n) =~= members.take(n - 1).push(members[n - 1]));
    }
}

/// `form_team` with a tag that was never used forms a team of the agents that the handles name, in
/// that order; a tag that was used is refused.
pub proof fn formed_teams_have_their_members(
    w: WorldView,
    role: Role,
    caller: AgentId,
    a: FormTeamArgs,
    replies: Replies,
    members: Seq<AgentId>,
)
    requires
        w.wf(),
        names(w, a.members@, members),
    ensures
        ({
            let (v, r) = args_step(w, role, caller, VerbArgs::FormTeam(a), replies);
            let used = exists|t: int|
                0 <= t < w.board.teams.len() && (#[trigger] w.board.teams[t]).id == a.team@;
            &&& r is Accepted <==> is_tag(a.team@) && !used
            &&& !is_tag(a.team@) ==> refuses(r, "unknown_team"@)
            &&& is_tag(a.team@) && used ==> refuses(r, "duplicate_team"@)
            &&& r is Accepted ==> {
                &&& r == (OutcomeView::Accepted {
                    result: JsonView::Object(seq![("team"@, JsonView::Text(a.team@))]),
                })
                &&& v.board.teams == w.board.teams.push(
                    TeamView { id: a.team@, members, dissolved: false },
                )
                &&& v.board.tasks == w.board.tasks
                &&& tells(w, v, caller, KindView::TeamFormed { team: a.team@, members })
                &&& steady(w, v) && silent(w, v) && unsteered(w, v)
                &&& v.team == w.team && v.next_task == w.next_task
            }
        }),
{
    lemma_names(w, a.members@, members, a.members@.len() as int);
    assert(texts(a.members@).take(a.members@.len() as int) =~= texts(a.members@));
    assert(members.take(a.members@.len() as int) =~= members);
    lemma_searches(w.board, TaskId(0), caller, a.team@, 0);
    if w.board.team_of(a.team@) is Some {
        assert(w.board.teams[w.board.team_of(a.team@)->0].id == a.team@);
    }
}

/// A handle that names nobody in the pool is refused wherever a team's members are given.
pub proof fn strangers_join_no_team(
    w: WorldView,
    role: Role,
    caller: AgentId,
    a: FormTeamArgs,
    b: SetTeamMembersArgs,
    replies: Replies,
    n: int,
)
    requires
        w.wf(),
        a.members@ == b.members@,
        is_tag(a.team@),
        is_tag(b.team@),
        b.in_response_to is None,
        0 <= n < a.members@.len(),
        forall|s: int|
            0 <= s < w.team.len() ==> (#[trigger] w.team[s]).id.handle() != a.members@[n]@,
    ensures
        refuses(
            args_step(w, role, caller, VerbArgs::FormTeam(a), replies).1,
            "unknown_agent"@,
        ),
        refuses(
            args_step(w, role, caller, VerbArgs::SetTeamMembers(b), replies).1,
            "unknown_agent"@,
        ),
{
    lemma_stranger(w, texts(a.members@), n, a.members@.len() as int);
    assert(texts(a.members@).take(a.members@.len() as int) =~= texts(a.members@));
}

proof fn lemma_stranger(w: WorldView, handles: Seq<Seq<char>>, n: int, m: int)
    requires
        0 <= n < m <= handles.len(),
        forall|s: int|
            0 <= s < w.team.len() ==> (#[trigger] w.team[s]).id.handle() != handles[n],
    ensures
        pool_agents(w, handles.take(m)) matches Err(r) && refuses(r, "unknown_agent"@),
    decreases m,
{
    assert(handles.take(m).drop_last() =~= handles.take(m - 1));
    assert(handles.take(m).last() == handles[m - 1]);
    if n < m - 1 {
        lemma_stranger(w, handles, n, m - 1);
    } else {
        if let Some(agent) = handle_agent(handles[n]) {
            lemma_slot_at(w.team, agent, 0);
            crate::agent::only_handles_are_read(handles[n]);
        }
        lemma_refusing(w, handles, m - 1);
    }
}

proof fn lemma_refusing(w: WorldView, handles: Seq<Seq<char>>, m: int)
    requires
        0 <= m <= handles.len(),
    ensures
        pool_agents(w, handles.take(m)) matches Err(r) ==> refuses(r, "unknown_agent"@),
    decreases m,
{
    if m > 0 {
        assert(handles.take(m).drop_last() =~= handles.take(m - 1));
        lemma_refusing(w, handles, m - 1);
    }
}

/// The tasks of a team that are neither done nor cancelled.
pub open spec fn busy_team(b: BoardView, tag: Seq<char>) -> bool {
    exists|k: int|
        0 <= k < b.tasks.len() && (#[trigger] b.tasks[k]).team == Some(tag) && (b.tasks[k].state
            is Open || b.tasks[k].state is Claimed)
}

proof fn lemma_busy_team(tasks: Seq<TaskView>, tag: Seq<char>)
    ensures
        BoardView::live_ids(tasks, tag).len() > 0 <==> exists|k: int|
            0 <= k < tasks.len() && (#[trigger] tasks[k]).team == Some(tag) && (tasks[k].state
                is Open || tasks[k].state is Claimed),
    decreases tasks.len(),
{
    if tasks.len() > 0 {
        let front = tasks.drop_last();
        lemma_busy_team(front, tag);
        let last = tasks.len() - 1;
        if tasks.last().live_in(tag) {
            assert(tasks[last].team == Some(tag));
        } else if BoardView::live_ids(front, tag).len() > 0 {
            let k = choose|k: int|
                0 <= k < front.len() && (#[trigger] front[k]).team == Some(tag) && (front[k].state
                    is Open || front[k].state is Claimed);
            assert(tasks[k].team == Some(tag));
        } else if exists|k: int|
            0 <= k < tasks.len() && (#[trigger] tasks[k]).team == Some(tag) && (tasks[k].state
                is Open || tasks[k].state is Claimed) {
            let k = choose|k: int|
                0 <= k < tasks.len() && (#[trigger] tasks[k]).team == Some(tag) && (tasks[k].state
                    is Open || tasks[k].state is Claimed);
            if k < last {
                assert(front[k].team == Some(tag));
            }
        }
    }
}

/// `dissolve_team` is accepted exactly for a live team all of whose tasks are done or cancelled. The
/// team is then dissolved and keeps its members; nothing else changes; and the log says so.
pub proof fn dissolved_teams_had_no_work(
    w: WorldView,
    role: Role,
    caller: AgentId,
    a: DissolveTeamArgs,
    replies: Replies,
    t: int,
)
    requires
        w.wf(),
        is_tag(a.team@),
        0 <= t < w.board.teams.len(),
        w.board.teams[t].id == a.team@,
    ensures
        ({
            let (v, r) = args_step(w, role, caller, VerbArgs::DissolveTeam(a), replies);
            let team = w.board.teams[t];
            &&& r is Accepted <==> !team.dissolved && !busy_team(w.board, a.team@)
            &&& team.dissolved ==> refuses(r, "team_dissolved"@)
            &&& !team.dissolved && busy_team(w.board, a.team@) ==> refuses(
                r,
                "team_has_live_tasks"@,
            )
            &&& r is Accepted ==> {
                &&& r == (OutcomeView::Accepted {
                    result: JsonView::Object(seq![("team"@, JsonView::Text(a.team@))]),
                })
                &&& v.board.teams == w.board.teams.update(t, TeamView { dissolved: true, ..team })
                &&& v.board.tasks == w.board.tasks
                &&& tells(w, v, caller, KindView::TeamDissolved { team: a.team@ })
                &&& steady(w, v) && silent(w, v) && unsteered(w, v)
                &&& v.team == w.team && v.next_task == w.next_task
            }
        }),
{
    lemma_team(w.board, t);
    lemma_busy_team(w.board.tasks, a.team@);
}

/// A team that is not on the board can neither be dissolved nor get other members.
pub proof fn unknown_teams_are_refused(
    w: WorldView,
    role: Role,
    caller: AgentId,
    a: DissolveTeamArgs,
    b: SetTeamMembersArgs,
    replies: Replies,
    members: Seq<AgentId>,
)
    requires
        w.wf(),
        a.team@ == b.team@,
        b.in_response_to is None,
        names(w, b.members@, members),
        forall|t: int|
            0 <= t < w.board.teams.len() ==> (#[trigger] w.board.teams[t]).id != a.team@,
    ensures
        refuses(
            args_step(w, role, caller, VerbArgs::DissolveTeam(a), replies).1,
            "unknown_team"@,
        ),
        refuses(
            args_step(w, role, caller, VerbArgs::SetTeamMembers(b), replies).1,
            "unknown_team"@,
        ),
{
    lemma_names(w, b.members@, members, b.members@.len() as int);
    assert(texts(b.members@).take(b.members@.len() as int) =~= texts(b.members@));
    lemma_searches(w.board, TaskId(0), caller, a.team@, 0);
}

proof fn lemma_missing(a: Seq<AgentId>, b: Seq<AgentId>, x: AgentId)
    ensures
        missing_from(a, b).contains(x) <==> a.contains(x) && !b.contains(x),
    decreases a.len(),
{
    if a.len() > 0 {
        let front = a.drop_last();
        lemma_missing(front, b, x);
        let was = missing_from(front, b);
        if a.last() == x {
            assert(a[a.len() - 1] == x);
            if !b.contains(x) {
                assert(missing_from(a, b)[was.len() as int] == x);
            } else if missing_from(a, b).contains(x) {
                assert(was.contains(x));
            }
        } else {
            if a.contains(x) {
                let i = choose|i: int| 0 <= i < a.len() && a[i] == x;
                assert(front[i] == x);
            }
            if front.contains(x) {
                let i = choose|i: int| 0 <= i < front.len() && front[i] == x;
                assert(a[i] == x);
            }
            if was.contains(x) {
                let i = choose|i: int| 0 <= i < was.len() && was[i] == x;
                assert(missing_from(a, b)[i] == x);
            }
            if missing_from(a, b).contains(x) {
                let i = choose|i: int|
                    0 <= i < missing_from(a, b).len() && missing_from(a, b)[i] == x;
                assert(was[i] == x);
            }
        }
    } else {
        assert(missing_from(a, b) =~= Seq::<AgentId>::empty());
    }
}

/// `set_team_members` is accepted exactly for a live team, which then has the agents that the handles
/// name, in that order; the log says who joined and who left; and a cited directive counts as acted
/// on.
pub proof fn teams_get_their_new_members(
    w: WorldView,
    role: Role,
    caller: AgentId,
    a: SetTeamMembersArgs,
    replies: Replies,
    members: Seq<AgentId>,
    t: int,
    x: AgentId,
)
    requires
        w.wf(),
        apart(w.directives),
        is_tag(a.team@),
        names(w, a.members@, members),
        0 <= t < w.board.teams.len(),
        w.board.teams[t].id == a.team@,
    ensures
        ({
            let (v, r) = args_step(w, role, caller, VerbArgs::SetTeamMembers(a), replies);
            let team = w.board.teams[t];
            let cited = a.in_response_to matches Some(raw) ==> citable(w, raw);
            &&& r is Accepted <==> cited && !team.dissolved
            &&& cited && team.dissolved ==> refuses(r, "team_dissolved"@)
            &&& r is Accepted ==> {
                &&& r == (OutcomeView::Accepted {
                    result: JsonView::Object(seq![("team"@, JsonView::Text(a.team@))]),
                })
                &&& v.board.teams == w.board.teams.update(t, TeamView { members, ..team })
                &&& v.board.tasks == w.board.tasks
                &&& v.events.len() > w.events.len()
                &&& v.events[w.events.len() as int].kind matches KindView::TeamMembersSet {
                    team: tag,
                    members: now,
                    added,
                    removed,
                    via_directive,
                } && {
                    &&& tag == a.team@
                    &&& now == members
                    &&& added.contains(x) <==> members.contains(x) && !team.members.contains(x)
                    &&& removed.contains(x) <==> team.members.contains(x) && !members.contains(x)
                    &&& via_directive == match a.in_response_to {
                        Some(raw) => Some(DirectiveId(raw)),
                        None => None,
                    }
                }
                &&& tells_in_answer(
                    w,
                    v,
                    caller,
                    v.events[w.events.len() as int].kind,
                    a.in_response_to,
                )
                &&& answered(w, v, caller, a.in_response_to)
                &&& steady(w, v) && silent(w, v)
                &&& v.team == w.team && v.next_task == w.next_task
            }
        }),
{
    let (v, r) = args_step(w, role, caller, VerbArgs::SetTeamMembers(a), replies);
    lemma_names(w, a.members@, members, a.members@.len() as int);
    assert(texts(a.members@).take(a.members@.len() as int) =~= texts(a.members@));
    assert(members.take(a.members@.len() as int) =~= members);
    lemma_team(w.board, t);
    lemma_citation(w, a.in_response_to);
    lemma_missing(members, w.board.teams[t].members, x);
    lemma_missing(w.board.teams[t].members, members, x);
    if r is Accepted {
        if let Some(raw) = a.in_response_to {
            lemma_directive(w.directives, DirectiveId(raw), 0);
        }
    }
}

// ---------------------------------------------------------------------------
// Specialties, sleeping and waking.
// ---------------------------------------------------------------------------

/// `respecialize` is accepted exactly for a team agent that is idle and has no turn under way, with a
/// slug that is one. The agent's profile then has the name, the description and the focus as they were
/// given, its window is clean, and it speaks to the model under the new name with its call numbers
/// going on; nothing else of it changes, and nobody else does; the log says from what to what; and a
/// cited directive counts as acted on.
pub proof fn respecialized_agents_get_the_profile(
    w: WorldView,
    role: Role,
    caller: AgentId,
    a: RespecializeArgs,
    replies: Replies,
    i: int,
)
    requires
        w.wf(),
        apart(w.directives),
        0 <= i < w.team.len(),
        a.agent@ == w.team[i].id.handle(),
    ensures
        ({
            let (v, r) = args_step(w, role, caller, VerbArgs::Respecialize(a), replies);
            let slot = w.team[i];
            let cited = a.in_response_to matches Some(raw) ==> citable(w, raw);
            let settled = slot.state is Idle && !slot.in_flight;
            &&& r is Accepted <==> cited && is_slug(a.specialty.name@) && settled
            &&& cited && !is_slug(a.specialty.name@) ==> refuses(r, "invalid_slug"@)
            &&& cited && is_slug(a.specialty.name@) && !settled ==> refuses(r, "not_idle"@)
            &&& r is Accepted ==> {
                &&& r == (OutcomeView::Accepted {
                    result: JsonView::Object(
                        seq![
                            ("agent"@, JsonView::Text(a.agent@)),
                            ("from"@, JsonView::Text(slot.profile.slug)),
                            ("to"@, JsonView::Text(a.specialty.name@)),
                        ],
                    ),
                })
                &&& v.team.len() == w.team.len()
                &&& v.team[i].profile.slug == a.specialty.name@
                &&& v.team[i].profile.description == a.specialty.description@
                &&& v.team[i].profile.focus == a.specialty.focus@
                &&& v.team[i].window.len() == 0
                &&& v.team[i].channel.specialty == a.specialty.name@
                &&& v.team[i].channel.agent == slot.channel.agent
                &&& v.team[i].channel.seed == slot.channel.seed
                &&& v.team[i].channel.call_seq == slot.channel.call_seq
                &&& v.team[i].id == slot.id
                &&& v.team[i].state == slot.state
                &&& v.team[i].in_flight == slot.in_flight
                &&& v.team[i].malformed == slot.malformed
                &&& v.team[i].turn_index == slot.turn_index
                &&& v.team[i].watermark == slot.watermark
                &&& forall|j: int|
                    0 <= j < w.team.len() && j != i ==> #[trigger] v.team[j] == w.team[j]
                &&& tells_in_answer(
                    w,
                    v,
                    caller,
                    KindView::AgentRespecialized {
                        agent: slot.id,
                        from: slot.profile.slug,
                        to: a.specialty.name@,
                        via_directive: match a.in_response_to {
                            Some(raw) => Some(DirectiveId(raw)),
                            None => None,
                        },
                    },
                    a.in_response_to,
                )
                &&& answered(w, v, caller, a.in_response_to)
                &&& steady(w, v) && silent(w, v)
                &&& v.board == w.board && v.next_task == w.next_task
            }
        }),
{
    let (v, r) = args_step(w, role, caller, VerbArgs::Respecialize(a), replies);
    lemma_books(w, i);
    lemma_citation(w, a.in_response_to);
    if r is Accepted {
        if let Some(raw) = a.in_response_to {
            lemma_directive(w.directives, DirectiveId(raw), 0);
        }
    }
}

/// A handle that names nobody in the pool is refused by every verb that steers one agent.
pub proof fn strangers_are_not_steered(
    w: WorldView,
    role: Role,
    caller: AgentId,
    a: RespecializeArgs,
    b: SleepAgentArgs,
    c: WakeAgentArgs,
    replies: Replies,
)
    requires
        a.in_response_to is None,
        b.agent@ == a.agent@,
        c.agent@ == a.agent@,
        forall|s: int| 0 <= s < w.team.len() ==> (#[trigger] w.team[s]).id.handle() != a.agent@,
    ensures
        refuses(
            args_step(w, role, caller, VerbArgs::Respecialize(a), replies).1,
            "unknown_agent"@,
        ),
        refuses(
            args_step(w, role, caller, VerbArgs::SleepAgent(b), replies).1,
            "unknown_agent"@,
        ),
        refuses(
            args_step(w, role, caller, VerbArgs::WakeAgent(c), replies).1,
            "unknown_agent"@,
        ),
{
    if let Some(agent) = handle_agent(a.agent@) {
        lemma_slot_at(w.team, agent, 0);
        crate::agent::only_handles_are_read(a.agent@);
    }
}

/// The books of one team agent change in its state alone; everybody else's stay.
pub open spec fn only_state(w: WorldView, v: WorldView, i: int, state: AgentState) -> bool {
    v.team == w.team.update(i, SlotView { state, ..w.team[i] })
}

/// A mechanical directive of the caller's was issued and stands as carried out by it.
pub open spec fn decreed(
    w: WorldView,
    v: WorldView,
    caller: AgentId,
    kind: DirectiveKind,
    args: JsonView,
) -> bool {
    &&& v.next_directive == w.next_directive + 1
    &&& v.directives == w.directives.push(
        DirectiveView {
            id: DirectiveId(w.next_directive),
            tier: DirectiveTier::Mechanical,
            kind,
            args,
            from: caller,
            state: ResolutionView::Fulfilled { by: caller },
        },
    )
}

/// The log has two more events: the directive of the caller's, and what it did.
pub open spec fn tells_decree(
    w: WorldView,
    v: WorldView,
    caller: AgentId,
    directive: DirectiveKind,
    args: JsonView,
    kind: KindView,
) -> bool {
    v.events == w.events.push(
        told(
            w,
            caller,
            KindView::DirectiveIssued {
                directive: DirectiveId(w.next_directive),
                tier: DirectiveTier::Mechanical,
                kind: directive,
                args,
            },
        ),
    ).push(
        EventView {
            id: EventId((w.next_event + 1) as u64),
            at: w.now,
            source: EventSource::Agent(caller),
            kind,
        },
    )
}

/// `sleep` puts its caller to sleep exactly if it is idle; nothing else changes, and the log says so.
pub proof fn idle_agents_may_sleep(
    w: WorldView,
    role: Role,
    a: SleepArgs,
    replies: Replies,
    i: int,
)
    requires
        w.wf(),
        0 <= i < w.team.len(),
    ensures
        ({
            let caller = w.team[i].id;
            let (v, r) = args_step(w, role, caller, VerbArgs::Sleep(a), replies);
            &&& r is Accepted <==> w.team[i].state is Idle
            &&& !(r is Accepted) ==> refuses(r, "not_idle"@)
            &&& r is Accepted ==> {
                &&& only_state(w, v, i, AgentState::Asleep)
                &&& tells(
                    w,
                    v,
                    caller,
                    KindView::AgentSlept { agent: caller, via_directive: None },
                )
                &&& steady(w, v) && silent(w, v) && unsteered(w, v)
                &&& v.board == w.board && v.next_task == w.next_task
            }
        }),
{
    lemma_books(w, i);
}

/// `sleep_agent` puts the team agent to sleep exactly if it is idle and has no turn under way. From a
/// meta-agent it does so by a mechanical directive, carried out at once; from the orchestrator it does
/// so without one. The agent's claims, window and numbers stay, and so does everything else.
pub proof fn settled_agents_can_be_put_to_sleep(
    w: WorldView,
    role: Role,
    caller: AgentId,
    a: SleepAgentArgs,
    replies: Replies,
    i: int,
)
    requires
        w.wf(),
        w.next_directive < u64::MAX,
        0 <= i < w.team.len(),
        a.agent@ == w.team[i].id.handle(),
    ensures
        ({
            let (v, r) = args_step(w, role, caller, VerbArgs::SleepAgent(a), replies);
            let slot = w.team[i];
            let args = JsonView::Object(seq![("agent"@, JsonView::Text(a.agent@))]);
            &&& r is Accepted <==> slot.state is Idle && !slot.in_flight
            &&& !(r is Accepted) ==> refuses(r, "not_idle"@)
            &&& r is Accepted ==> {
                &&& only_state(w, v, i, AgentState::Asleep)
                &&& steady(w, v) && silent(w, v)
                &&& v.board == w.board && v.next_task == w.next_task
                &&& role is MetaAgent ==> {
                    &&& decreed(w, v, caller, DirectiveKind::SleepAgent, args)
                    &&& tells_decree(
                        w,
                        v,
                        caller,
                        DirectiveKind::SleepAgent,
                        args,
                        KindView::AgentSlept {
                            agent: slot.id,
                            via_directive: Some(DirectiveId(w.next_directive)),
                        },
                    )
                }
                &&& !(role is MetaAgent) ==> {
                    &&& unsteered(w, v)
                    &&& tells(
                        w,
                        v,
                        caller,
                        KindView::AgentSlept { agent: slot.id, via_directive: None },
                    )
                }
            }
        }),
{
    lemma_books(w, i);
}

/// `wake_agent` wakes the team agent exactly if it sleeps. It goes back to the task that it still
/// claims, or is idle without one, and its malformed turns are forgotten; nothing else of it changes,
/// and nobody else does. From a meta-agent this goes by a mechanical directive, carried out at once;
/// from the orchestrator without one.
pub proof fn woken_agents_go_back_to_their_task(
    w: WorldView,
    role: Role,
    caller: AgentId,
    a: WakeAgentArgs,
    replies: Replies,
    i: int,
    k: int,
)
    requires
        w.wf(),
        w.next_directive < u64::MAX,
        0 <= i < w.team.len(),
        a.agent@ == w.team[i].id.handle(),
        free(w.board, w.team[i].id) || (0 <= k < w.board.tasks.len() && w.board.tasks[k].state
            == (StateView::Claimed { by: w.team[i].id })),
    ensures
        ({
            let (v, r) = args_step(w, role, caller, VerbArgs::WakeAgent(a), replies);
            let slot = w.team[i];
            let args = JsonView::Object(seq![("agent"@, JsonView::Text(a.agent@))]);
            let restored = if free(w.board, slot.id) {
                RestoredState::Idle
            } else {
                RestoredState::Working { task: w.board.tasks[k].id }
            };
            &&& r is Accepted <==> slot.state is Asleep
            &&& !(r is Accepted) ==> refuses(r, "not_asleep"@)
            &&& r is Accepted ==> {
                &&& v.team == w.team.update(
                    i,
                    SlotView {
                        state: if free(w.board, slot.id) {
                            AgentState::Idle
                        } else {
                            AgentState::Working { task: w.board.tasks[k].id }
                        },
                        malformed: 0,
                        ..slot
                    },
                )
                &&& steady(w, v) && silent(w, v)
                &&& v.board == w.board && v.next_task == w.next_task
                &&& role is MetaAgent ==> {
                    &&& decreed(w, v, caller, DirectiveKind::WakeAgent, args)
                    &&& tells_decree(
                        w,
                        v,
                        caller,
                        DirectiveKind::WakeAgent,
                        args,
                        KindView::AgentWoke {
                            agent: slot.id,
                            restored,
                            via_directive: Some(DirectiveId(w.next_directive)),
                        },
                    )
                }
                &&& !(role is MetaAgent) ==> {
                    &&& unsteered(w, v)
                    &&& tells(
                        w,
                        v,
                        caller,
                        KindView::AgentWoke { agent: slot.id, restored, via_directive: None },
                    )
                }
            }
        }),
{
    lemma_books(w, i);
    lemma_free(w.board, w.team[i].id);
    if !free(w.board, w.team[i].id) {
        lemma_claim(w.board, k, w.team[i].id);
    }
}

/// Sleeping and waking undo each other: an idle team agent without a task that is put to sleep and
/// woken is as before, but for the malformed turns, which are forgotten.
pub proof fn waking_undoes_sleeping(
    w: WorldView,
    role: Role,
    caller: AgentId,
    a: SleepAgentArgs,
    b: WakeAgentArgs,
    replies: Replies,
    i: int,
)
    requires
        w.wf(),
        w.next_directive + 1 < u64::MAX,
        0 <= i < w.team.len(),
        a.agent@ == w.team[i].id.handle(),
        b.agent@ == a.agent@,
        w.team[i].state is Idle,
        !w.team[i].in_flight,
        free(w.board, w.team[i].id),
    ensures
        ({
            let s = args_step(w, role, caller, VerbArgs::SleepAgent(a), replies).0;
            let (v, r) = args_step(s, role, caller, VerbArgs::WakeAgent(b), replies);
            &&& s.team[i].state is Asleep
            &&& r is Accepted
            &&& v.team == w.team.update(i, SlotView { malformed: 0, ..w.team[i] })
            &&& v.board == w.board
        }),
{
    let s = args_step(w, role, caller, VerbArgs::SleepAgent(a), replies).0;
    settled_agents_can_be_put_to_sleep(w, role, caller, a, replies, i);
    assert(s.team[i].id == w.team[i].id);
    let v = args_step(s, role, caller, VerbArgs::WakeAgent(b), replies).0;
    handle_reads_back(w.team[i].id);
    lemma_slot_at(s.team, w.team[i].id, 0);
    lemma_free(w.board, w.team[i].id);
    let f = slot_at(s.team, w.team[i].id, 0)->0;
    assert(s.team[i].id == w.team[i].id);
    assert(w.team[f].id == s.team[f].id);
    assert(f == i);
    assert(v.team =~= w.team.update(i, SlotView { malformed: 0, ..w.team[i] }));
}

/// `set_parallelism` is always accepted: as many may then work as were asked for, but at least one and
/// at most as many as were configured. It goes by a mechanical directive, carried out at once; the
/// permits that are free, those in use and those still to be withdrawn stay in balance; and the log
/// says what was asked for and what came of it.
pub proof fn parallelism_is_clamped(
    w: WorldView,
    role: Role,
    caller: AgentId,
    a: SetParallelismArgs,
    replies: Replies,
)
    requires
        w.wf(),
        w.next_directive < u64::MAX,
        w.configured_parallelism <= u32::MAX,
        w.permits + w.configured_parallelism <= usize::MAX,
        w.permit_debt + w.effective_parallelism <= usize::MAX,
    ensures
        ({
            let (v, r) = args_step(w, role, caller, VerbArgs::SetParallelism(a), replies);
            let args = JsonView::Object(seq![("target"@, JsonView::number(a.target as u64))]);
            let now = v.effective_parallelism;
            &&& r == (OutcomeView::Accepted {
                result: JsonView::Object(
                    seq![
                        ("applied"@, JsonView::Bool(true)),
                        ("effective"@, JsonView::number(now as u64)),
                    ],
                ),
            })
            &&& 1 <= now <= w.configured_parallelism
            &&& 1 <= a.target <= w.configured_parallelism ==> now == a.target
            &&& a.target == 0 ==> now == 1
            &&& a.target > w.configured_parallelism ==> now == w.configured_parallelism
            &&& v.permits - v.permit_debt - now == w.permits - w.permit_debt
                - w.effective_parallelism
            &&& now >= w.effective_parallelism ==> v.permit_debt == w.permit_debt
            &&& now < w.effective_parallelism ==> v.permits == 0 || v.permit_debt == w.permit_debt
            &&& decreed(w, v, caller, DirectiveKind::SetParallelism, args)
            &&& tells_decree(
                w,
                v,
                caller,
                DirectiveKind::SetParallelism,
                args,
                KindView::ParallelismChanged {
                    requested: a.target,
                    effective: now as u32,
                    via_directive: DirectiveId(w.next_directive),
                },
            )
            &&& calm(w, v) && silent(w, v)
            &&& v.report == w.report && v.finish_requested == w.finish_requested
            &&& v.board == w.board && v.team == w.team && v.next_task == w.next_task
        }),
{
    let now = crate::verbs::granted(w, a.target);
    assert(now as nat % 0x1_0000_0000 == now as nat);
}

// ---------------------------------------------------------------------------
// Directives and the end.
// ---------------------------------------------------------------------------

/// A proposal is always accepted: it issues a judgment directive of the caller's with the arguments as
/// they were sent, which stays pending, and changes nothing else.
pub proof fn proposals_stay_pending(
    w: WorldView,
    role: Role,
    caller: AgentId,
    kind: DirectiveKind,
    raw: String,
    replies: Replies,
)
    requires
        w.next_directive < u64::MAX,
    ensures
        ({
            let (v, r) = args_step(w, role, caller, VerbArgs::Propose(kind, raw), replies);
            let args = match parsed_json(raw@) {
                Some(value) => value,
                None => JsonView::Null,
            };
            &&& r == gives("directive_id"@, w.next_directive)
            &&& v.next_directive == w.next_directive + 1
            &&& v.directives == w.directives.push(
                DirectiveView {
                    id: DirectiveId(w.next_directive),
                    tier: DirectiveTier::Judgment,
                    kind,
                    args,
                    from: caller,
                    state: ResolutionView::Pending,
                },
            )
            &&& tells(
                w,
                v,
                caller,
                KindView::DirectiveIssued {
                    directive: DirectiveId(w.next_directive),
                    tier: DirectiveTier::Judgment,
                    kind,
                    args,
                },
            )
            &&& steady(w, v) && silent(w, v)
            &&& v.board == w.board && v.team == w.team && v.next_task == w.next_task
        }),
{
}

/// `decline_directive` is accepted exactly for a judgment directive that is pending, which then stands
/// as declined by the caller for the reason given; no other directive changes, nothing else does, and
/// the log says so. An unknown directive is refused as such.
pub proof fn declined_directives_were_pending(
    w: WorldView,
    role: Role,
    caller: AgentId,
    a: DeclineDirectiveArgs,
    replies: Replies,
    d: int,
)
    requires
        apart(w.directives),
        0 <= d < w.directives.len(),
        w.directives[d].id.0 == a.directive,
    ensures
        ({
            let (v, r) = args_step(w, role, caller, VerbArgs::DeclineDirective(a), replies);
            let before = w.directives[d];
            &&& r is Accepted <==> before.tier is Judgment && before.state is Pending
            &&& !(r is Accepted) ==> refuses(r, "directive_not_pending"@)
            &&& r is Accepted ==> {
                &&& r == gives("directive"@, a.directive)
                &&& v.directives == w.directives.update(
                    d,
                    DirectiveView {
                        state: ResolutionView::Declined { by: caller, reason: a.reason@ },
                        ..before
                    },
                )
                &&& v.next_directive == w.next_directive
                &&& tells(
                    w,
                    v,
                    caller,
                    KindView::DirectiveDeclined {
                        directive: before.id,
                        kind: before.kind,
                        reason: a.reason@,
                        by: caller,
                    },
                )
                &&& steady(w, v) && silent(w, v)
                &&& v.board == w.board && v.team == w.team && v.next_task == w.next_task
            }
        }),
{
    assert(w.directives[d].id == DirectiveId(a.directive));
    lemma_directive(w.directives, DirectiveId(a.directive), 0);
}

/// A directive that was never issued can be neither declined nor cited.
pub proof fn unknown_directives_are_refused(
    w: WorldView,
    role: Role,
    caller: AgentId,
    a: DeclineDirectiveArgs,
    b: UnassignTaskArgs,
    c: SetTeamMembersArgs,
    e: RespecializeArgs,
    replies: Replies,
)
    requires
        forall|d: int|
            0 <= d < w.directives.len() ==> (#[trigger] w.directives[d]).id.0 != a.directive,
        b.in_response_to == Some(a.directive),
        c.in_response_to == Some(a.directive),
        e.in_response_to == Some(a.directive),
    ensures
        refuses(
            args_step(w, role, caller, VerbArgs::DeclineDirective(a), replies).1,
            "unknown_directive"@,
        ),
        refuses(
            args_step(w, role, caller, VerbArgs::UnassignTask(b), replies).1,
            "unknown_directive"@,
        ),
        refuses(
            args_step(w, role, caller, VerbArgs::SetTeamMembers(c), replies).1,
            "unknown_directive"@,
        ),
        refuses(
            args_step(w, role, caller, VerbArgs::Respecialize(e), replies).1,
            "unknown_directive"@,
        ),
{
    lemma_directive(w.directives, DirectiveId(a.directive), 0);
}

/// A directive that is mechanical or resolved cannot be cited.
pub proof fn settled_directives_are_not_cited(
    w: WorldView,
    role: Role,
    caller: AgentId,
    b: UnassignTaskArgs,
    c: SetTeamMembersArgs,
    e: RespecializeArgs,
    replies: Replies,
    d: int,
)
    requires
        apart(w.directives),
        0 <= d < w.directives.len(),
        !(w.directives[d].tier is Judgment && w.directives[d].state is Pending),
        b.in_response_to == Some(w.directives[d].id.0),
        c.in_response_to == b.in_response_to,
        e.in_response_to == b.in_response_to,
    ensures
        refuses(
            args_step(w, role, caller, VerbArgs::UnassignTask(b), replies).1,
            "directive_not_pending"@,
        ),
        refuses(
            args_step(w, role, caller, VerbArgs::SetTeamMembers(c), replies).1,
            "directive_not_pending"@,
        ),
        refuses(
            args_step(w, role, caller, VerbArgs::Respecialize(e), replies).1,
            "directive_not_pending"@,
        ),
{
    assert(w.directives[d].id == DirectiveId(b.in_response_to->0));
    lemma_directive(w.directives, DirectiveId(b.in_response_to->0), 0);
}

/// `finish_run` is granted exactly when every task is done or cancelled. It keeps the report as it was
/// given and asks for the end; nothing else changes, and nothing is logged until the turn ends.
pub proof fn finished_boards_may_finish(
    w: WorldView,
    role: Role,
    caller: AgentId,
    a: FinishRunArgs,
    replies: Replies,
)
    ensures
        ({
            let (v, r) = args_step(w, role, caller, VerbArgs::FinishRun(a), replies);
            &&& r is Accepted <==> forall|k: int|
                0 <= k < w.board.tasks.len() ==> (#[trigger] w.board.tasks[k]).state is Done
                    || w.board.tasks[k].state is Cancelled
            &&& !(r is Accepted) ==> refuses(r, "blockers"@)
            &&& r is Accepted ==> {
                &&& r == (OutcomeView::Accepted {
                    result: JsonView::Object(seq![("finishing"@, JsonView::Bool(true))]),
                })
                &&& v.report == Some(a.report@)
                &&& v.finish_requested
                &&& v.events == w.events
                &&& calm(w, v) && silent(w, v) && unsteered(w, v)
                &&& v.board == w.board && v.team == w.team
            }
        }),
{
    crate::board::blockers_are_the_live_tasks(w.board, w.board.tasks.len() as int);
    let (v, r) = args_step(w, role, caller, VerbArgs::FinishRun(a), replies);
    if forall|k: int|
        0 <= k < w.board.tasks.len() ==> (#[trigger] w.board.tasks[k]).state is Done
            || w.board.tasks[k].state is Cancelled {
        assert forall|k: int| 0 <= k < w.board.tasks.len() implies (
        #[trigger] w.board.tasks[k]).state.terminal() by {}
    } else {
        let k = choose|k: int|
            0 <= k < w.board.tasks.len() && !((#[trigger] w.board.tasks[k]).state is Done
                || w.board.tasks[k].state is Cancelled);
        assert(!w.board.tasks[k].state.terminal());
    }
}

} // verus!
