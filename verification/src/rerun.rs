//! A whole run, one turn at a time, whose answers from outside are functions of what is asked: it goes
//! the same way every time.
use crate::agent::{AgentId, Role};
use crate::context::{blocks, skeleton_text};
use crate::dispatch::{call_step, sought, wanted, Replies};
use crate::event::{text_view, EventSource, Timestamp, TurnOutcome, TurnUsage};
use crate::exchange::{
    asked, call_line, called, channel_of, heard, progressed, replies_to, Completion,
};
use crate::ids::RunId;
use crate::knowledge::{EntryView, ScoredEntry};
use crate::llm::LlmError;
use crate::metrics::RunSummary;
use crate::repeat::{
    alike, beginnings_repeat, calls_repeat, lemma_asked_alike, lemma_ended_alike, lemma_heard_alike,
    lemma_opened_alike, prompts_repeat, same_log, schedules_repeat, starts_repeat,
};
use crate::run::{
    blank_world, report_text, start_event, summaries_agree, verdict, RunConfig,
};
use crate::schedule::{scheduled, watched, TurnPlan};
use crate::text::joined;
use crate::tools::{OutcomeView, ToolView, VerbArgs};
use crate::turn::{
    begun, ended, held_task, known, next_call, prompt_sections, query_of, remembered, specialty_of,
    turns_begun, TurnProgress,
};
use crate::wire::{CallView, LineView};
use crate::world::WorldView;
use vstd::prelude::*;

verus! {

// ---------------------------------------------------------------------------
// What lies outside.
// ---------------------------------------------------------------------------

/// A request to the model, with the identity that it is made under.
pub struct Asked {
    /// The identity text.
    pub user: Seq<char>,
    /// The number of the call.
    pub call_seq: u64,
    /// The seed of the run.
    pub seed: u64,
    /// The model.
    pub model: Seq<char>,
    /// The conversation.
    pub messages: Seq<LineView>,
    /// The tools on offer.
    pub tools: Seq<ToolView>,
    /// Whether several may be called at once.
    pub parallel: bool,
}

/// Everything that answers a run from outside, each answer a function of what is asked.
pub struct Outside {
    /// The tools of each role.
    pub tools: spec_fn(Role) -> Seq<ToolView>,
    /// The model's reply.
    pub complete: spec_fn(Asked) -> Result<Completion, LlmError>,
    /// A call's arguments, read for its verb.
    pub decode: spec_fn(CallView) -> Result<VerbArgs, String>,
    /// What a search of the knowledge finds for a prompt.
    pub hits: spec_fn(Seq<EntryView>, Seq<char>) -> Seq<ScoredEntry>,
    /// What embedding a text and searching the knowledge come to for a call.
    pub replies: spec_fn(Seq<EntryView>, Option<Seq<char>>, Option<(Seq<char>, usize)>) -> Replies,
}

// ---------------------------------------------------------------------------
// The run.
// ---------------------------------------------------------------------------

/// Where a turn stands.
pub enum Phase {
    /// It asks the model next.
    Asking,
    /// It carries out calls, of which some are answered.
    Acting { content: Option<Seq<char>>, calls: Seq<CallView>, done: Seq<OutcomeView> },
    /// It ends next.
    Ending(TurnOutcome),
}

/// A turn under way.
pub struct TurnState {
    /// How far it has come.
    pub p: TurnProgress,
    /// The conversation.
    pub messages: Seq<LineView>,
    /// Where it stands.
    pub phase: Phase,
}

/// A run under way.
pub struct RunState {
    /// The world.
    pub w: WorldView,
    /// The turns that are still to be run.
    pub queue: Seq<TurnPlan>,
    /// The turn under way.
    pub turn: Option<TurnState>,
    /// Nothing more happens.
    pub over: bool,
}

/// The run when a turn is over: a team agent's permit is back.
pub open spec fn landed(s: RunState, w: WorldView, role: Role) -> RunState {
    RunState {
        w: if role is TeamAgent {
            WorldView { permits: (w.permits + 1) as usize, ..w }
        } else {
            w
        },
        turn: None,
        ..s
    }
}

/// The run when nothing is under way or planned: the scheduler plans, and where it plans nothing the
/// watchdog looks.
pub open spec fn rescheduled(s: RunState) -> RunState {
    let (w, plans) = scheduled(s.w, None);
    match plans {
        None => RunState { w, over: true, ..s },
        Some(queue) => if queue.len() == 0 {
            RunState { w: watched(w).0, ..s }
        } else {
            RunState { w, queue, ..s }
        },
    }
}

/// What a search finds for an agent's prompt.
pub open spec fn hits_for(o: Outside, w: WorldView, agent: AgentId, role: Role) -> Seq<ScoredEntry> {
    match query_of(w, agent, role) {
        Some(query) => (o.hits)(w.store, query),
        None => Seq::empty(),
    }
}

/// The run when the next planned turn has begun.
pub open spec fn turn_begun(config: RunConfig, o: Outside, s: RunState) -> RunState {
    let TurnPlan { agent, role } = s.queue[0];
    let rest = RunState { queue: s.queue.skip(1), ..s };
    let pool = config.assembly_budget;
    let hits = hits_for(o, s.w, agent, role);
    let w = begun(s.w, agent, role, pool, hits);
    if s.w.finishing is Some || !known(s.w, agent, role) {
        landed(rest, w, role)
    } else {
        let sections = prompt_sections(s.w, agent, role, pool, hits);
        RunState {
            w,
            turn: Some(
                TurnState {
                    p: TurnProgress {
                        agent,
                        role,
                        turn_index: (turns_begun(s.w, agent, role) + 1) as u64,
                        first_call_seq: next_call(s.w, agent, role),
                        usage: TurnUsage { prompt: 0, completion: 0, total: 0 },
                        tool_iters: 0,
                        completions: 0,
                        any_success: false,
                        all_invalid: true,
                        finish_hit: false,
                        on_task: held_task(s.w, agent, role),
                    },
                    messages: seq![
                        LineView::System(skeleton_text(role, specialty_of(s.w, agent))),
                        LineView::User(joined(blocks(sections), "\n\n"@)),
                    ],
                    phase: Phase::Asking,
                },
            ),
            ..rest
        }
    }
}

/// The run when a turn has asked the model and taken its reply.
pub open spec fn turn_asked(config: RunConfig, o: Outside, s: RunState, t: TurnState) -> RunState {
    let (agent, role) = (t.p.agent, t.p.role);
    let (w, granted) = asked(s.w, agent, role, config.max_llm_calls);
    if !granted {
        landed(s, w, role)
    } else {
        let channel = channel_of(s.w, agent, role);
        let reply = (o.complete)(
            Asked {
                user: channel.user().text(),
                call_seq: channel.call_seq,
                seed: channel.seed,
                model: config.model@,
                messages: t.messages,
                tools: (o.tools)(role),
                parallel: !(role is MetaAgent),
            },
        );
        let v = heard(w, t.p, reply);
        let p = progressed(t.p, reply);
        match reply {
            Err(_) => landed(s, v, role),
            Ok(c) => match c.message {
                None => landed(s, v, role),
                Some(m) => if called(m).len() == 0 {
                    let phase = Phase::Ending(TurnOutcome::Yielded);
                    RunState { w: v, turn: Some(TurnState { p, phase, ..t }), ..s }
                } else if w.finishing is Some {
                    landed(s, v, role)
                } else {
                    let phase = Phase::Acting {
                        content: text_view(m.content),
                        calls: called(m),
                        done: Seq::empty(),
                    };
                    RunState { w: v, turn: Some(TurnState { p, phase, ..t }), ..s }
                },
            },
        }
    }
}

/// The run when the next call of a turn has been carried out, or, when all have, their outcomes are
/// in the conversation.
pub open spec fn turn_acted(
    config: RunConfig,
    o: Outside,
    s: RunState,
    t: TurnState,
    content: Option<Seq<char>>,
    calls: Seq<CallView>,
    done: Seq<OutcomeView>,
) -> RunState {
    let (agent, role) = (t.p.agent, t.p.role);
    if done.len() < calls.len() {
        let call = calls[done.len() as int];
        let tools = (o.tools)(role);
        let decoded = (o.decode)(call);
        let replies = (o.replies)(
            s.w.store,
            wanted(s.w, tools, agent, call.name, decoded),
            sought(tools, call.name, decoded),
        );
        let (after, outcome) = call_step(s.w, tools, role, agent, call.name, decoded, replies);
        RunState {
            w: remembered(after, agent, role, call_line(t.p.turn_index, call, outcome)),
            turn: Some(
                TurnState {
                    p: t.p.noted(call.name, outcome).on(held_task(after, agent, role)),
                    phase: Phase::Acting { content, calls, done: done.push(outcome) },
                    ..t
                },
            ),
            ..s
        }
    } else {
        RunState {
            turn: Some(
                TurnState {
                    messages: t.messages.push(LineView::Assistant(content, Some(calls)))
                        + replies_to(calls, done),
                    phase: if t.p.finish_hit {
                        Phase::Ending(TurnOutcome::Yielded)
                    } else if t.p.tool_iters >= config.max_tool_iters {
                        Phase::Ending(TurnOutcome::ToolIterCap)
                    } else {
                        Phase::Asking
                    },
                    ..t
                },
            ),
            ..s
        }
    }
}

/// The run one step on.
pub open spec fn advanced(config: RunConfig, o: Outside, s: RunState) -> RunState {
    if s.over {
        s
    } else {
        match s.turn {
            None => if s.queue.len() == 0 {
                rescheduled(s)
            } else {
                turn_begun(config, o, s)
            },
            Some(t) => match t.phase {
                Phase::Asking => turn_asked(config, o, s, t),
                Phase::Acting { content, calls, done } => turn_acted(
                    config,
                    o,
                    s,
                    t,
                    content,
                    calls,
                    done,
                ),
                Phase::Ending(outcome) => landed(
                    s,
                    ended(s.w, t.p, outcome, config.max_ticks, None),
                    t.p.role,
                ),
            },
        }
    }
}

/// A run at its start, under a clock that stands still.
pub open spec fn started(config: RunConfig, run: RunId, now: Timestamp) -> RunState {
    RunState {
        w: blank_world(config, now).log(EventSource::System, start_event(config, run)),
        queue: Seq::empty(),
        turn: None,
        over: false,
    }
}

/// A run after a number of steps.
pub open spec fn run_after(config: RunConfig, o: Outside, start: RunState, n: nat) -> RunState
    decreases n,
{
    if n == 0 {
        start
    } else {
        advanced(config, o, run_after(config, o, start, (n - 1) as nat))
    }
}

// ---------------------------------------------------------------------------
// Laws.
// ---------------------------------------------------------------------------

/// Two runs stand at the same place, but for the number of the run and, unless times count, their
/// clocks.
pub open spec fn abreast(timed: bool, a: RunState, b: RunState) -> bool {
    &&& alike(timed, a.w, b.w)
    &&& a.queue == b.queue
    &&& a.turn == b.turn
    &&& a.over == b.over
}

proof fn lemma_rescheduled(timed: bool, a: RunState, b: RunState)
    requires
        abreast(timed, a, b),
    ensures
        abreast(timed, rescheduled(a), rescheduled(b)),
{
    schedules_repeat(timed, a.w, b.w, None);
    schedules_repeat(timed, scheduled(a.w, None).0, scheduled(b.w, None).0, None);
}

proof fn lemma_begun(timed: bool, config: RunConfig, o: Outside, a: RunState, b: RunState)
    requires
        abreast(timed, a, b),
        a.queue.len() > 0,
    ensures
        abreast(timed, turn_begun(config, o, a), turn_begun(config, o, b)),
{
    let TurnPlan { agent, role } = a.queue[0];
    prompts_repeat(timed, a.w, b.w, agent, role, Seq::empty());
    let hits = hits_for(o, a.w, agent, role);
    assert(hits_for(o, b.w, agent, role) == hits);
    beginnings_repeat(timed, a.w, b.w, agent, role, config.assembly_budget, hits);
    lemma_opened_alike(timed, a.w, b.w, agent, role);
}

proof fn lemma_asked(
    timed: bool,
    config: RunConfig,
    o: Outside,
    a: RunState,
    b: RunState,
    t: TurnState,
)
    requires
        abreast(timed, a, b),
    ensures
        abreast(timed, turn_asked(config, o, a, t), turn_asked(config, o, b, t)),
{
    let (agent, role) = (t.p.agent, t.p.role);
    lemma_asked_alike(timed, a.w, b.w, agent, role, config.max_llm_calls);
    let (x, y) = (
        asked(a.w, agent, role, config.max_llm_calls).0,
        asked(b.w, agent, role, config.max_llm_calls).0,
    );
    let channel = channel_of(a.w, agent, role);
    let reply = (o.complete)(
        Asked {
            user: channel.user().text(),
            call_seq: channel.call_seq,
            seed: channel.seed,
            model: config.model@,
            messages: t.messages,
            tools: (o.tools)(role),
            parallel: !(role is MetaAgent),
        },
    );
    lemma_heard_alike(timed, x, y, t.p, reply);
}

proof fn lemma_acted(
    timed: bool,
    config: RunConfig,
    o: Outside,
    a: RunState,
    b: RunState,
    t: TurnState,
    content: Option<Seq<char>>,
    calls: Seq<CallView>,
    done: Seq<OutcomeView>,
)
    requires
        abreast(timed, a, b),
    ensures
        abreast(
            timed,
            turn_acted(config, o, a, t, content, calls, done),
            turn_acted(config, o, b, t, content, calls, done),
        ),
{
    if done.len() < calls.len() {
        let (agent, role) = (t.p.agent, t.p.role);
        let call = calls[done.len() as int];
        let tools = (o.tools)(role);
        let decoded = (o.decode)(call);
        assert(wanted(a.w, tools, agent, call.name, decoded) == wanted(
            b.w,
            tools,
            agent,
            call.name,
            decoded,
        ));
        let replies = (o.replies)(
            a.w.store,
            wanted(a.w, tools, agent, call.name, decoded),
            sought(tools, call.name, decoded),
        );
        calls_repeat(timed, a.w, b.w, tools, role, agent, call.name, decoded, replies);
        let (x, outcome) = call_step(a.w, tools, role, agent, call.name, decoded, replies);
        let y = call_step(b.w, tools, role, agent, call.name, decoded, replies).0;
        let line = call_line(t.p.turn_index, call, outcome);
        assert(alike(timed, remembered(x, agent, role, line), remembered(y, agent, role, line)));
    }
}

proof fn lemma_advanced(timed: bool, config: RunConfig, o: Outside, a: RunState, b: RunState)
    requires
        abreast(timed, a, b),
    ensures
        abreast(timed, advanced(config, o, a), advanced(config, o, b)),
{
    if !a.over {
        match a.turn {
            None => if a.queue.len() == 0 {
                lemma_rescheduled(timed, a, b);
            } else {
                lemma_begun(timed, config, o, a, b);
            },
            Some(t) => match t.phase {
                Phase::Asking => lemma_asked(timed, config, o, a, b, t),
                Phase::Acting { content, calls, done } => lemma_acted(
                    timed,
                    config,
                    o,
                    a,
                    b,
                    t,
                    content,
                    calls,
                    done,
                ),
                Phase::Ending(outcome) => lemma_ended_alike(
                    timed,
                    a.w,
                    b.w,
                    t.p,
                    outcome,
                    config.max_ticks,
                    None,
                ),
            },
        }
    }
}

/// Runs of one configuration whose outside answers alike stand at the same place after every number
/// of steps, whatever their numbers and whenever they run.
pub proof fn runs_stay_abreast(
    timed: bool,
    config: RunConfig,
    o: Outside,
    run: RunId,
    other: RunId,
    now: Timestamp,
    later: Timestamp,
    n: nat,
)
    requires
        timed ==> now == later,
    ensures
        abreast(
            timed,
            run_after(config, o, started(config, run, now), n),
            run_after(config, o, started(config, other, later), n),
        ),
    decreases n,
{
    if n == 0 {
        starts_repeat(timed, config, run, other, now, later);
    } else {
        let m = (n - 1) as nat;
        runs_stay_abreast(timed, config, o, run, other, now, later, m);
        lemma_advanced(
            timed,
            config,
            o,
            run_after(config, o, started(config, run, now), m),
            run_after(config, o, started(config, other, later), m),
        );
    }
}

/// The same seed gives an identical run: two runs of one configuration, turn by turn, under clocks
/// that stand at the same instant, whose model, tools and knowledge search answer as functions of
/// what is asked, have logs that are equal but for the number of the run, end after the same steps,
/// with the same exit code, and report the same.
pub proof fn one_seed_gives_one_run(
    config: RunConfig,
    o: Outside,
    run: RunId,
    other: RunId,
    now: Timestamp,
    n: nat,
    s: RunSummary,
    t: RunSummary,
)
    requires
        s.of(run_after(config, o, started(config, run, now), n).w.metrics),
        t.of(run_after(config, o, started(config, other, now), n).w.metrics),
    ensures
        ({
            let a = run_after(config, o, started(config, run, now), n);
            let b = run_after(config, o, started(config, other, now), n);
            &&& a.over == b.over
            &&& same_log(true, a.w.events, b.w.events)
            &&& verdict(a.w) == verdict(b.w)
            &&& report_text(a.w, s) == report_text(b.w, t)
        }),
{
    runs_stay_abreast(true, config, o, run, other, now, now, n);
    summaries_agree(s, t, run_after(config, o, started(config, run, now), n).w.metrics);
}

} // verus!
