//! How runs and turns begin, go on and end, told from the books, the mail and the log.
use crate::agent::{AgentId, Role};
use crate::context::{degraded_in, drained_in, role_sections, CharCountTokenizer};
use crate::event::{CapKind, EventSource, KindView, RunFinishReason, Timestamp, TurnOutcome};
use crate::exchange::{
    asked, called, heard, lemma_same_controls, progressed, replies_to, Completion,
};
use crate::ids::{RunId, TaskId};
use crate::knowledge::ScoredEntry;
use crate::llm::{ChannelView, LlmError};
use crate::message::mail_for;
use crate::metrics::RunSummary;
use crate::run::{blank_world, report_text, start_event, verdict, RunConfig};
use crate::tools::OutcomeView;
use crate::turn::{
    begun, degraded, delivered, ended, prompt_sections, remembered, turn_over, TurnProgress,
};
use crate::wire::{CallView, LineView};
use crate::world::{
    control_at, lemma_slot_at, slot_at, AgentState, ControlView, SlotView, WorldView,
};
use vstd::prelude::*;

verus! {

// ---------------------------------------------------------------------------
// Books.
// ---------------------------------------------------------------------------

proof fn lemma_found(w: WorldView, i: int)
    requires
        w.wf(),
        0 <= i < w.team.len(),
    ensures
        slot_at(w.team, w.team[i].id, 0) == Some(i),
{
    let id = w.team[i].id;
    lemma_slot_at(w.team, id, 0);
    let f = slot_at(w.team, id, 0)->0;
    assert(w.team[f].id == id);
}

proof fn lemma_control(metas: Seq<ControlView>, agent: AgentId, i: int)
    requires
        i >= 0,
    ensures
        match control_at(metas, agent, i) {
            Some(k) => i <= k < metas.len() && metas[k].id == agent,
            None => forall|j: int| i <= j < metas.len() ==> (#[trigger] metas[j]).id != agent,
        },
    decreases metas.len() - i,
{
    if i < metas.len() {
        lemma_control(metas, agent, i + 1);
    }
}

proof fn lemma_found_meta(w: WorldView, i: int)
    requires
        w.wf(),
        0 <= i < w.metas.len(),
    ensures
        control_at(w.metas, w.metas[i].id, 0) == Some(i),
{
    let id = w.metas[i].id;
    lemma_control(w.metas, id, 0);
    let f = control_at(w.metas, id, 0)->0;
    assert(w.metas[f].id == id);
}

/// A turn that is over is no longer under way, and nothing else of its agent changes, nor of anyone; it
/// is not news by itself, and what the agent has not seen stays unseen.
pub proof fn over_turns_are_not_under_way(w: WorldView, i: int, j: int)
    requires
        w.wf(),
        0 <= i < w.team.len(),
        0 <= j < w.metas.len(),
    ensures
        ({
            let a = turn_over(w, AgentId::Orchestrator, Role::Orchestrator);
            let b = turn_over(w, w.team[i].id, Role::TeamAgent);
            let c = turn_over(w, w.metas[j].id, Role::MetaAgent);
            let left = if w.turns_in_flight > 0 {
                w.turns_in_flight - 1
            } else {
                0
            };
            &&& a.orchestrator == (ControlView { in_flight: false, ..w.orchestrator })
            &&& a.team == w.team && a.metas == w.metas && a.turns_in_flight == left
            &&& b.team == w.team.update(i, SlotView { in_flight: false, ..w.team[i] })
            &&& b.orchestrator == w.orchestrator && b.metas == w.metas && b.turns_in_flight == left
            &&& c.metas == w.metas.update(j, ControlView { in_flight: false, ..w.metas[j] })
            &&& c.orchestrator == w.orchestrator && c.team == w.team && c.turns_in_flight == left
            &&& a.events == w.events && b.events == w.events && c.events == w.events
            &&& a.board == w.board && b.board == w.board && c.board == w.board
            &&& a.permits == w.permits && b.permits == w.permits && c.permits == w.permits
            &&& a.mail == w.mail && b.mail == w.mail && c.mail == w.mail
        }),
{
    lemma_found(w, i);
    lemma_found_meta(w, j);
}

// ---------------------------------------------------------------------------
// Beginning.
// ---------------------------------------------------------------------------

/// Taking the oldest messages off an agent's queue leaves the others in their order, and nobody else's
/// queue changes.
pub proof fn delivered_mail_is_gone(w: WorldView, agent: AgentId, n: nat, other: AgentId)
    requires
        n <= mail_for(w.mail, agent).len(),
    ensures
        ({
            let v = delivered(w, agent, n);
            &&& mail_for(v.mail, agent) == mail_for(w.mail, agent).skip(n as int)
            &&& other != agent ==> mail_for(v.mail, other) == mail_for(w.mail, other)
            &&& n == 0 ==> v == w
            &&& n > 0 ==> {
                &&& v.events.len() == w.events.len() + 1
                &&& v.events.last().source == EventSource::Agent(agent)
                &&& v.events.last().kind == (KindView::MessagesDelivered {
                    delivered: mail_for(w.mail, agent).take(n as int),
                })
            }
            &&& v.board == w.board && v.team == w.team && v.messages == w.messages
        }),
{
    let queue = mail_for(w.mail, agent);
    assert(queue.skip(0) =~= queue);
    if n > 0 && queue.skip(n as int).len() == 0 {
        assert(mail_for(delivered(w, agent, n).mail, agent) =~= queue.skip(n as int));
    }
}

/// A team agent's turn begins with one more turn in its books and with everything logged so far seen;
/// the messages that its prompt shows are delivered, and what the prompt lost is logged; no task, no
/// entry and nobody else's books change. In a run that is finishing nothing begins.
pub proof fn beginnings_mark_what_is_seen(
    w: WorldView,
    pool: Option<usize>,
    hits: Seq<ScoredEntry>,
    i: int,
)
    requires
        w.wf(),
        0 <= i < w.team.len(),
        w.team[i].turn_index < u64::MAX,
        w.events.len() + 2 <= usize::MAX,
        w.finishing is None,
    ensures
        ({
            let slot = w.team[i];
            let v = begun(w, slot.id, Role::TeamAgent, pool, hits);
            let sections = prompt_sections(w, slot.id, Role::TeamAgent, pool, hits);
            let shown = drained_in(sections);
            let lost = degraded_in(
                &CharCountTokenizer,
                role_sections(Role::TeamAgent),
                sections,
            );
            &&& v.team.len() == w.team.len()
            &&& v.team[i] == (SlotView {
                turn_index: (slot.turn_index + 1) as u64,
                watermark: v.events.len() as usize,
                ..slot
            })
            &&& forall|j: int|
                0 <= j < w.team.len() && j != i ==> #[trigger] v.team[j] == w.team[j]
            &&& v.events.len() == w.events.len() + (if shown > 0 {
                1int
            } else {
                0
            }) + (if lost.len() > 0 {
                1int
            } else {
                0
            })
            &&& lost.len() > 0 ==> v.events.last().kind == (KindView::ContextDegraded {
                agent: slot.id,
                sections: lost,
            })
            &&& shown > 0 ==> v.events[w.events.len() as int].kind is MessagesDelivered
            &&& v.mail == delivered(w, slot.id, shown).mail
            &&& v.board == w.board && v.store == w.store && v.messages == w.messages
            &&& v.directives == w.directives && v.orchestrator == w.orchestrator
            &&& v.turns_in_flight == w.turns_in_flight && v.permits == w.permits
        }),
{
    lemma_found(w, i);
}

/// No turn begins in a run that is finishing: nothing is logged or delivered.
pub proof fn finishing_runs_begin_nothing(
    w: WorldView,
    pool: Option<usize>,
    hits: Seq<ScoredEntry>,
    agent: AgentId,
    role: Role,
    max: Option<u64>,
)
    requires
        w.finishing is Some,
    ensures
        begun(w, agent, role, pool, hits) == turn_over(w, agent, role),
        asked(w, agent, role, max) == (turn_over(w, agent, role), false),
        begun(w, agent, role, pool, hits).events == w.events,
        begun(w, agent, role, pool, hits).mail == w.mail,
{
}

// ---------------------------------------------------------------------------
// Asking and hearing.
// ---------------------------------------------------------------------------

/// A team agent asks the model under its next call number, which goes up by one, and the completion is
/// counted. At the limit on completions the run ends instead, and the turn with it.
pub proof fn completions_are_counted(w: WorldView, max: Option<u64>, i: int)
    requires
        w.wf(),
        w.finishing is None,
        0 <= i < w.team.len(),
        w.llm_calls < u64::MAX,
        w.team[i].channel.call_seq < u64::MAX,
    ensures
        ({
            let slot = w.team[i];
            let (v, granted) = asked(w, slot.id, Role::TeamAgent, max);
            &&& granted <==> (max matches Some(m) ==> w.llm_calls < m)
            &&& granted ==> {
                &&& v.llm_calls == w.llm_calls + 1
                &&& v.team == w.team.update(
                    i,
                    SlotView {
                        channel: ChannelView {
                            call_seq: (slot.channel.call_seq + 1) as u64,
                            ..slot.channel
                        },
                        ..slot
                    },
                )
                &&& v.events == w.events && v.finishing is None && v.board == w.board
                &&& v.turns_in_flight == w.turns_in_flight
            }
            &&& !granted ==> (max matches Some(m) && {
                &&& v.finishing == Some((RunFinishReason::CapHit(CapKind::MaxLlmCalls), 2u8))
                &&& v.events.len() == w.events.len() + 2
                &&& v.events[w.events.len() as int].kind == (KindView::CapHit {
                    cap: CapKind::MaxLlmCalls,
                    limit: m,
                    observed: w.llm_calls,
                })
                &&& v.llm_calls == w.llm_calls
                &&& !v.team[i].in_flight
                &&& v.team[i].channel == slot.channel
            })
        }),
{
    lemma_found(w, i);
}

/// The tokens of a reply are added to those of the turn, and the reply counts as one completion; it
/// begins a tool round if it calls anything. A failed completion adds nothing.
pub proof fn replies_add_up(p: TurnProgress, reply: Result<Completion, LlmError>)
    requires
        reply matches Ok(c) ==> {
            &&& p.usage.prompt + c.usage.prompt <= u64::MAX
            &&& p.usage.completion + c.usage.completion <= u64::MAX
            &&& p.usage.total + c.usage.total <= u64::MAX
            &&& p.completions < u64::MAX
            &&& p.tool_iters < u32::MAX
        },
    ensures
        ({
            let q = progressed(p, reply);
            match reply {
                Err(_) => q == p,
                Ok(c) => {
                    &&& q.usage.prompt == p.usage.prompt + c.usage.prompt
                    &&& q.usage.completion == p.usage.completion + c.usage.completion
                    &&& q.usage.total == p.usage.total + c.usage.total
                    &&& q.completions == p.completions + 1
                    &&& q.tool_iters == p.tool_iters + (if c.message matches Some(m) && called(
                        m,
                    ).len() > 0 {
                        1int
                    } else {
                        0
                    })
                    &&& q.agent == p.agent && q.role == p.role && q.turn_index == p.turn_index
                    &&& q.first_call_seq == p.first_call_seq && q.on_task == p.on_task
                    &&& q.finish_hit == p.finish_hit && q.all_invalid == p.all_invalid
                    &&& q.any_success == p.any_success
                },
            }
        }),
{
}

/// A reply changes nothing in the world, but a fault, or a reply without a choice, ends the run and says
/// whose completion it was; and calls that arrive when the run is finishing only close the turn.
pub proof fn faults_end_the_run(
    w: WorldView,
    p: TurnProgress,
    reply: Result<Completion, LlmError>,
)
    ensures
        ({
            let v = heard(w, p, reply);
            &&& (reply matches Ok(c) && c.message is Some && w.finishing is None) ==> v == w
            &&& w.finishing is None && (reply matches Err(e)) ==> v.finishing == Some(
                (RunFinishReason::HarnessError, 1u8),
            ) && v.harness_error == Some(
                "llm completion failed for "@ + p.agent.handle() + ": "@ + reply->Err_0.text(),
            )
            &&& w.finishing is None && (reply matches Ok(c) && c.message is None) ==> v.finishing
                == Some((RunFinishReason::HarnessError, 1u8)) && v.harness_error == Some(
                "llm returned no choices for "@ + p.agent.handle(),
            )
            &&& w.finishing is Some ==> v.events == w.events && v.finishing == w.finishing
            &&& v.board == w.board
        }),
{
}

/// A turn is malformed exactly if it made calls and all of them were invalid; a refusal by the domain
/// counts as a good call. Only the orchestrator's accepted `finish_run` asks for the end.
pub proof fn one_good_call_saves_a_turn(p: TurnProgress, name: Seq<char>, outcome: OutcomeView)
    ensures
        ({
            let q = p.noted(name, outcome);
            &&& !(outcome is Invalid) ==> q.any_success && !q.all_invalid && !q.malformed()
            &&& outcome is Invalid ==> q.any_success == p.any_success && q.all_invalid
                == p.all_invalid
            &&& p.finish_hit ==> q.finish_hit
            &&& !p.finish_hit ==> (q.finish_hit <==> p.role is Orchestrator && name
                == "finish_run"@ && outcome is Accepted)
            &&& q.tool_iters == p.tool_iters && q.completions == p.completions && q.usage == p.usage
            &&& p.tool_iters == 0 ==> !p.malformed()
            &&& p.tool_iters > 0 && p.all_invalid ==> p.malformed()
        }),
{
}

/// A turn stays on the task that its agent held last.
pub proof fn turns_stay_on_their_task(p: TurnProgress, held: Option<TaskId>)
    ensures
        held is Some ==> p.on(held).on_task == held,
        held is None ==> p.on(held) == p,
{
}

/// A call of a team agent is remembered as the last line of its window, with the turn, the verb and how
/// it was answered; nobody else's window changes, and other roles have none.
pub proof fn calls_are_remembered(w: WorldView, line: Seq<char>, i: int, role: Role, agent: AgentId)
    requires
        w.wf(),
        0 <= i < w.team.len(),
    ensures
        remembered(w, w.team[i].id, Role::TeamAgent, line) == w.with_slot(
            i,
            SlotView { window: w.team[i].window.push(line), ..w.team[i] },
        ),
        !(role is TeamAgent) ==> remembered(w, agent, role, line) == w,
{
    lemma_found(w, i);
}

/// Every call gets one reply, under its own number, with how it was answered, in order.
pub proof fn every_call_is_answered(calls: Seq<CallView>, outcomes: Seq<OutcomeView>, i: int)
    requires
        calls.len() == outcomes.len(),
    ensures
        replies_to(calls, outcomes).len() == calls.len(),
        0 <= i < calls.len() ==> replies_to(calls, outcomes)[i] == LineView::Tool(
            outcomes[i].content(),
            calls[i].id,
        ),
{
}

// ---------------------------------------------------------------------------
// Ending.
// ---------------------------------------------------------------------------

/// The event of a turn that ended.
pub open spec fn turn_told(p: TurnProgress, outcome: TurnOutcome, kind: KindView) -> bool {
    kind matches KindView::TurnCompleted {
        first_call_seq,
        last_call_seq,
        tool_iters,
        outcome: o,
        malformed,
        usage,
        on_task,
    } && {
        &&& first_call_seq == p.first_call_seq
        &&& p.completions > 0 ==> last_call_seq == p.first_call_seq + p.completions - 1
        &&& p.completions == 0 ==> last_call_seq == p.first_call_seq
        &&& tool_iters == p.tool_iters
        &&& o == outcome
        &&& malformed <==> p.tool_iters > 0 && p.all_invalid
        &&& usage == p.usage
        &&& on_task == p.on_task
    }
}

/// A team agent's turn ends with one event that tells its calls, its tokens and its task. A malformed
/// turn is counted; the third in a row parks the agent, which says so in the log and keeps its task; a
/// turn with a good call forgives them; one without calls changes nothing. The turn is then no longer
/// under way.
pub proof fn third_malformed_turn_parks(
    w: WorldView,
    p: TurnProgress,
    outcome: TurnOutcome,
    max_ticks: Option<u64>,
    i: int,
)
    requires
        w.wf(),
        w.finishing is None,
        0 <= i < w.team.len(),
        p.agent == w.team[i].id,
        p.role is TeamAgent,
        !p.finish_hit,
        p.first_call_seq + p.completions <= u64::MAX,
        w.team[i].malformed < u32::MAX,
    ensures
        ({
            let slot = w.team[i];
            let v = ended(w, p, outcome, max_ticks, None);
            let n = w.events.len() as int;
            let bad = p.tool_iters > 0 && p.all_invalid;
            let parks = bad && slot.malformed >= 2;
            &&& v.events.len() == n + (if parks {
                2int
            } else {
                1
            })
            &&& v.events[n].source == EventSource::Agent(p.agent)
            &&& turn_told(p, outcome, v.events[n].kind)
            &&& parks ==> v.events[n + 1].kind == (KindView::AgentParked {
                agent: p.agent,
                count: (slot.malformed + 1) as u32,
            })
            &&& v.team == w.team.update(
                i,
                SlotView {
                    in_flight: false,
                    state: if parks {
                        AgentState::Asleep
                    } else {
                        slot.state
                    },
                    malformed: if bad {
                        (slot.malformed + 1) as u32
                    } else if p.any_success {
                        0
                    } else {
                        slot.malformed
                    },
                    ..slot
                },
            )
            &&& v.board == w.board && v.mail == w.mail && v.store == w.store
            &&& v.finishing is None && v.ticks == w.ticks
            &&& v.turns_in_flight == (if w.turns_in_flight > 0 {
                w.turns_in_flight - 1
            } else {
                0
            })
        }),
{
    lemma_found(w, i);
    let v = ended(w, p, outcome, max_ticks, None);
    let logged = w.log(EventSource::Agent(p.agent), crate::turn::turn_event(p, outcome));
    assert(logged.team == w.team);
    let weighed = crate::turn::weighed(logged, p);
    lemma_same_place(w.team, weighed.team, p.agent, 0);
    assert(v.team =~= w.team.update(i, v.team[i]));
}

proof fn lemma_same_place(a: Seq<SlotView>, b: Seq<SlotView>, agent: AgentId, i: int)
    requires
        i >= 0,
        a.len() == b.len(),
        forall|k: int| 0 <= k < a.len() ==> (#[trigger] a[k]).id == b[k].id,
    ensures
        slot_at(a, agent, i) == slot_at(b, agent, i),
    decreases a.len() - i,
{
    if i < a.len() {
        assert(a[i].id == b[i].id);
        lemma_same_place(a, b, agent, i + 1);
    }
}

/// An orchestrator turn ends with one event and counts as a tick. If its request to finish was accepted,
/// the run is then cleanly over, with exit code zero; otherwise the limit on ticks, once reached, ends
/// it, with exit code two.
pub proof fn ticks_are_counted(
    w: WorldView,
    p: TurnProgress,
    outcome: TurnOutcome,
    max_ticks: Option<u64>,
)
    requires
        w.finishing is None,
        p.role is Orchestrator,
        p.agent is Orchestrator,
        p.finish_hit ==> w.finish_requested,
        w.ticks < u64::MAX,
        p.first_call_seq + p.completions <= u64::MAX,
    ensures
        ({
            let v = ended(w, p, outcome, max_ticks, None);
            let n = w.events.len() as int;
            let reached = !w.finish_requested && (max_ticks matches Some(m) && w.ticks + 1 >= m);
            &&& v.ticks == w.ticks + 1
            &&& v.events.len() > n
            &&& v.events[n].source == EventSource::Agent(AgentId::Orchestrator)
            &&& turn_told(p, outcome, v.events[n].kind)
            &&& !v.orchestrator.in_flight
            &&& p.finish_hit ==> {
                &&& v.finishing == Some((RunFinishReason::CleanFinish, 0u8))
                &&& v.events.len() == n + 2
                &&& v.events[n + 1].kind == (KindView::RunFinished {
                    reason: RunFinishReason::CleanFinish,
                    exit_code: 0,
                })
            }
            &&& !p.finish_hit && reached ==> {
                &&& v.finishing == Some((RunFinishReason::CapHit(CapKind::MaxTicks), 2u8))
                &&& v.events.len() == n + 3
                &&& v.events[n + 1].kind == (KindView::CapHit {
                    cap: CapKind::MaxTicks,
                    limit: max_ticks->0,
                    observed: v.ticks,
                })
            }
            &&& !p.finish_hit && !reached ==> v.finishing is None && v.events.len() == n + 1
            &&& v.board == w.board && v.team == w.team && v.report == w.report
        }),
{
}

/// A meta-agent's turn ends with one event; nothing else changes but that it is no longer under way.
pub proof fn meta_turns_are_logged(
    w: WorldView,
    p: TurnProgress,
    outcome: TurnOutcome,
    max_ticks: Option<u64>,
)
    requires
        w.finishing is None,
        p.role is MetaAgent,
        !p.finish_hit,
        p.first_call_seq + p.completions <= u64::MAX,
    ensures
        ({
            let v = ended(w, p, outcome, max_ticks, None);
            let n = w.events.len() as int;
            &&& v.events.len() == n + 1
            &&& v.events[n].source == EventSource::Agent(p.agent)
            &&& turn_told(p, outcome, v.events[n].kind)
            &&& v.ticks == w.ticks && v.finishing is None
            &&& v.board == w.board && v.team == w.team && v.orchestrator == w.orchestrator
        }),
{
}

// ---------------------------------------------------------------------------
// Runs.
// ---------------------------------------------------------------------------

/// A run starts with nothing on the board, nothing said and nothing known; with the team agents and
/// meta-agents that were asked for, numbered from one, all idle generalists under the run's seed; with as
/// many permits as may work at once: as asked for, but not more than there are agents, and at least one;
/// and with one event that tells its settings.
pub proof fn runs_start_from_their_settings(
    config: RunConfig,
    run: RunId,
    now: Timestamp,
    i: int,
)
    requires
        config.agents < u32::MAX,
        config.meta_agents < u32::MAX,
    ensures
        ({
            let v = blank_world(config, now).log(EventSource::System, start_event(config, run));
            &&& v.goal == config.goal@ && v.seed == config.seed && v.now == now
            &&& v.board.tasks.len() == 0 && v.board.teams.len() == 0
            &&& v.messages.len() == 0 && v.store.len() == 0 && v.directives.len() == 0
            &&& forall|a: AgentId| #[trigger] mail_for(v.mail, a).len() == 0
            &&& v.next_task == 1 && v.next_message == 1 && v.next_directive == 1 && v.next_event
                == 1
            &&& v.team.len() == config.agents && v.metas.len() == config.meta_agents
            &&& 0 <= i < config.agents ==> {
                &&& v.team[i].id == AgentId::Team((i + 1) as u64)
                &&& v.team[i].state is Idle && !v.team[i].in_flight
                &&& v.team[i].malformed == 0 && v.team[i].turn_index == 0
                &&& v.team[i].watermark == 0 && v.team[i].window.len() == 0
                &&& v.team[i].profile.slug == "generalist"@
                &&& v.team[i].channel.agent == v.team[i].id
                &&& v.team[i].channel.seed == config.seed && v.team[i].channel.call_seq == 0
                &&& v.team[i].channel.specialty == "generalist"@
            }
            &&& 0 <= i < config.meta_agents ==> {
                &&& v.metas[i].id == AgentId::Meta((i + 1) as u64)
                &&& !v.metas[i].in_flight && v.metas[i].watermark == 0
                &&& v.metas[i].channel.seed == config.seed && v.metas[i].channel.call_seq == 0
                &&& v.metas[i].unobserved == 1 && !v.metas[i].priority
            }
            &&& v.orchestrator.channel.seed == config.seed && v.orchestrator.channel.call_seq == 0
            &&& v.permits == v.effective_parallelism && v.permits == v.configured_parallelism
            &&& v.permits >= 1
            &&& 1 <= config.parallel <= config.agents ==> v.permits == config.parallel
            &&& config.parallel > config.agents && config.agents >= 1 ==> v.permits
                == config.agents
            &&& config.parallel == 0 || config.agents == 0 ==> v.permits == 1
            &&& v.permit_debt == 0 && v.finishing is None && !v.first_tick_fired
            &&& v.events.len() == 1 && v.events[0].source is System && v.events[0].at == now
            &&& v.events[0].kind matches KindView::RunStarted {
                run_id,
                seed,
                goal,
                agents,
                meta_agents,
                parallel,
                scenario,
                caps,
            } && {
                &&& run_id == run && seed == config.seed && goal == config.goal@
                &&& agents == config.agents && meta_agents == config.meta_agents
                &&& parallel == v.permits
                &&& scenario is Some <==> config.scenario is Some
                &&& config.scenario matches Some(name) ==> scenario == Some(name@)
                &&& caps.max_ticks == config.max_ticks
                &&& caps.max_llm_calls == config.max_llm_calls
                &&& caps.max_duration_ms == config.max_duration_ms
            }
        }),
{
    let v = blank_world(config, now).log(EventSource::System, start_event(config, run));
    assert(config.agents as nat % 0x1_0000_0000 == config.agents as nat);
    assert(config.meta_agents as nat % 0x1_0000_0000 == config.meta_agents as nat);
    assert(config.width() <= u32::MAX);
    assert(config.width() as nat % 0x1_0000_0000 == config.width() as nat);
}

/// A report opens with the orchestrator's own words if the run finished cleanly, and otherwise with why
/// it was terminated; the run's exit code is that of its end, and one if it has none.
pub proof fn reports_open_with_the_end(w: WorldView, s: RunSummary)
    ensures
        ({
            let text = report_text(w, s);
            let body = match w.finishing {
                Some((RunFinishReason::CleanFinish, _)) => match w.report {
                    Some(words) => words,
                    None => "terminated: finish_run carried no report"@,
                },
                Some((RunFinishReason::CapHit(cap), _)) => "terminated: "@ + cap.name()
                    + " cap before finish_run"@,
                _ => "terminated: harness error before finish_run ("@ + (match w.harness_error {
                    Some(e) => e,
                    None => Seq::empty(),
                }) + ")"@,
            };
            &&& text.len() >= body.len()
            &&& text.take(body.len() as int) == body
            &&& w.finishing matches Some((_, code)) ==> verdict(w).1 == code
            &&& w.finishing is None ==> verdict(w).1 == 1
        }),
{
    let text = report_text(w, s);
    let body = crate::run::report_body(w);
    assert(text.take(body.len() as int) =~= body);
}

/// A turn of the orchestrator or of a meta-agent begins like that of a team agent: it is counted, and
/// all that is logged by then counts as seen. No one else's books change.
pub proof fn other_beginnings_mark_what_is_seen(
    w: WorldView,
    pool: Option<usize>,
    hits: Seq<ScoredEntry>,
    i: int,
)
    requires
        w.wf(),
        w.orchestrator.turn_index < u64::MAX,
        w.events.len() + 2 <= usize::MAX,
        w.finishing is None,
    ensures
        ({
            let v = begun(w, AgentId::Orchestrator, Role::Orchestrator, pool, hits);
            &&& v.orchestrator.turn_index == w.orchestrator.turn_index + 1
            &&& v.orchestrator.watermark == v.events.len()
            &&& v.orchestrator.channel == w.orchestrator.channel
            &&& v.orchestrator.in_flight == w.orchestrator.in_flight
            &&& v.team == w.team && v.board == w.board && v.store == w.store
        }),
        0 <= i < w.metas.len() && w.metas[i].turn_index < u64::MAX ==> ({
            let agent = w.metas[i].id;
            let v = begun(w, agent, Role::MetaAgent, pool, hits);
            &&& v.metas.len() == w.metas.len()
            &&& v.metas[i].id == agent
            &&& v.metas[i].turn_index == w.metas[i].turn_index + 1
            &&& v.metas[i].watermark == v.events.len()
            &&& v.metas[i].channel == w.metas[i].channel
            &&& v.team == w.team && v.board == w.board && v.store == w.store
        }),
{
    if 0 <= i < w.metas.len() && w.metas[i].turn_index < u64::MAX {
        lemma_meta_begun(w, pool, hits, i);
    }
}

proof fn lemma_meta_begun(w: WorldView, pool: Option<usize>, hits: Seq<ScoredEntry>, i: int)
    requires
        w.wf(),
        w.events.len() + 2 <= usize::MAX,
        w.finishing is None,
        0 <= i < w.metas.len(),
        w.metas[i].turn_index < u64::MAX,
    ensures
        ({
            let agent = w.metas[i].id;
            let v = begun(w, agent, Role::MetaAgent, pool, hits);
            &&& v.metas.len() == w.metas.len()
            &&& v.metas[i].id == agent
            &&& v.metas[i].turn_index == w.metas[i].turn_index + 1
            &&& v.metas[i].watermark == v.events.len()
            &&& v.metas[i].channel == w.metas[i].channel
            &&& v.team == w.team && v.board == w.board && v.store == w.store
        }),
{
    let agent = w.metas[i].id;
    let sections = prompt_sections(w, agent, Role::MetaAgent, pool, hits);
    let mailed = delivered(w, agent, drained_in(sections));
    let told = degraded(
        mailed,
        agent,
        degraded_in(&CharCountTokenizer, role_sections(Role::MetaAgent), sections),
    );
    lemma_found_meta(w, i);
    assert(told.metas.len() == w.metas.len());
    assert forall|j: int| 0 <= j < w.metas.len() implies (#[trigger] told.metas[j]).id
        == w.metas[j].id && told.metas[j].turn_index == w.metas[j].turn_index
        && told.metas[j].channel == w.metas[j].channel by {}
    lemma_same_controls(told.metas, w.metas, agent, 0);
}

} // verus!
