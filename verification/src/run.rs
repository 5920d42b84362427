//! A run from its settings to its report.
use crate::agent::AgentId;
use crate::board::{Board, BoardView};
use crate::context::{generalist_profile, low32, SpecialtyProfile};
use crate::event::{
    text_view, CapKind, EventKind, EventSource, KindView, RunCaps, RunFinishReason, Timestamp,
};
use crate::ids::{hyphenated, run_id_text, RunId};
use crate::knowledge::KnowledgeStore;
use crate::llm::{AgentChannel, ChannelView};
use crate::message::Mailboxes;
use crate::metrics::{Metrics, MetricsView, RunSummary};
use crate::text::{joined, no_lines};
use crate::world::{
    control_views, fresh_control, slot_views, AgentSlot, AgentState, ControlSlot, SlotView, World,
    WorldView,
};
use vstd::prelude::*;

verus! {

/// The settings of a run.
#[derive(Debug)]
pub struct RunConfig {
    /// The goal.
    pub goal: String,
    /// How many team agents.
    pub agents: usize,
    /// How many meta-agents.
    pub meta_agents: usize,
    /// How many team agents may work at once.
    pub parallel: usize,
    /// The seed.
    pub seed: u64,
    /// A limit on orchestrator turns.
    pub max_ticks: Option<u64>,
    /// A limit on completions.
    pub max_llm_calls: Option<u64>,
    /// A limit on time, in milliseconds.
    pub max_duration_ms: Option<u64>,
    /// A limit on the tool rounds of a turn.
    pub max_tool_iters: u32,
    /// The model.
    pub model: String,
    /// The embedding model.
    pub embedding_model: String,
    /// Whether texts are embedded without the model.
    pub local_embeddings: bool,
    /// Where the run's files go, unless to the usual place.
    pub out_dir: Option<String>,
    /// The name of the scenario.
    pub scenario: Option<String>,
    /// A budget for whole prompts.
    pub assembly_budget: Option<usize>,
    /// Whether turns run one at a time.
    pub serial_dispatch: bool,
}

impl RunConfig {
    /// Settings with nothing but a goal.
    pub fn new(goal: &str) -> (c: RunConfig)
        ensures
            c.goal@ == goal@,
            c.agents == 4,
            c.meta_agents == 1,
            c.parallel == 4,
            c.seed == 0,
            c.max_ticks is None,
            c.max_llm_calls is None,
            c.max_duration_ms is None,
            c.max_tool_iters == 8,
            c.model@ == "openteam-mock"@,
            c.embedding_model@ == "openteam-mock"@,
            !c.local_embeddings,
            c.out_dir is None,
            c.scenario is None,
            c.assembly_budget is None,
            !c.serial_dispatch,
    {
        RunConfig {
            goal: goal.to_owned(),
            agents: 4,
            meta_agents: 1,
            parallel: 4,
            seed: 0,
            max_ticks: None,
            max_llm_calls: None,
            max_duration_ms: None,
            max_tool_iters: 8,
            model: "openteam-mock".to_owned(),
            embedding_model: "openteam-mock".to_owned(),
            local_embeddings: false,
            out_dir: None,
            scenario: None,
            assembly_budget: None,
            serial_dispatch: false,
        }
    }

    /// How many team agents may work at once: as many as asked for, but not more than there are,
    /// and at least one.
    pub open spec fn width(self) -> usize {
        let w = if self.parallel <= self.agents {
            self.parallel
        } else {
            self.agents
        };
        if w < 1 {
            1
        } else {
            w
        }
    }
}

/// Why a run could not start.
#[derive(PartialEq, Eq, Debug)]
pub enum RunError {
    /// Its files could not be made.
    Artifacts(String),
}

impl RunError {
    /// The error in words.
    pub fn message(&self) -> (s: String)
        ensures
            s@ == "failed to create run artifacts: "@ + self->0@,
    {
        match self {
            RunError::Artifacts(e) => {
                let mut s = "failed to create run artifacts: ".to_owned();
                s.push_str(e.as_str());
                s
            },
        }
    }
}

/// A team agent at the start of a run.
pub open spec fn fresh_slot(n: u64, seed: u64) -> SlotView {
    SlotView {
        id: AgentId::Team(n),
        state: AgentState::Idle,
        in_flight: false,
        malformed: 0,
        profile: generalist_profile(),
        window: Seq::empty(),
        turn_index: 0,
        watermark: 0,
        channel: ChannelView {
            agent: AgentId::Team(n),
            specialty: "generalist"@,
            seed,
            call_seq: 0,
        },
    }
}

/// The world before anything has been logged.
pub open spec fn blank_world(config: RunConfig, now: Timestamp) -> WorldView {
    WorldView {
        goal: config.goal@,
        seed: config.seed,
        now,
        board: BoardView::empty(),
        messages: Seq::empty(),
        mail: Map::empty(),
        store: Seq::empty(),
        directives: Seq::empty(),
        next_task: 1,
        next_message: 1,
        next_directive: 1,
        next_event: 0,
        events: Seq::empty(),
        metrics: MetricsView::empty(),
        team: Seq::new(config.agents as nat, |i: int| fresh_slot((i + 1) as u64, config.seed)),
        orchestrator: fresh_control(AgentId::Orchestrator, config.seed),
        metas: Seq::new(
            config.meta_agents as nat,
            |i: int| fresh_control(AgentId::Meta((i + 1) as u64), config.seed),
        ),
        release_counts: Seq::empty(),
        report: None,
        finish_requested: false,
        finishing: None,
        harness_error: None,
        first_tick_fired: false,
        forced_tick: false,
        ticks: 0,
        llm_calls: 0,
        turns_in_flight: 0,
        effective_parallelism: config.width(),
        configured_parallelism: config.width(),
        permit_debt: 0,
        permits: config.width(),
    }
}

/// The event that opens the log.
pub open spec fn start_event(config: RunConfig, run_id: RunId) -> KindView {
    KindView::RunStarted {
        run_id,
        seed: config.seed,
        goal: config.goal@,
        agents: low32(config.agents as nat),
        meta_agents: low32(config.meta_agents as nat),
        parallel: low32(config.width() as nat),
        scenario: text_view(config.scenario),
        caps: RunCaps {
            max_ticks: config.max_ticks,
            max_llm_calls: config.max_llm_calls,
            max_duration_ms: config.max_duration_ms,
        },
    }
}

fn fresh_team(agents: usize, seed: u64) -> (team: Vec<AgentSlot>)
    ensures
        slot_views(team@) == Seq::new(agents as nat, |i: int| fresh_slot((i + 1) as u64, seed)),
{
    let mut team: Vec<AgentSlot> = Vec::new();
    let mut n: usize = 0;
    while n < agents
        invariant
            0 <= n <= agents,
            team.len() == n,
            forall|k: int|
                0 <= k < n ==> (#[trigger] team@[k])@ == fresh_slot((k + 1) as u64, seed),
        decreases agents - n,
    {
        let id = AgentId::Team(n as u64 + 1);
        team.push(
            AgentSlot {
                id,
                state: AgentState::Idle,
                in_flight: false,
                consecutive_malformed: 0,
                profile: SpecialtyProfile::generalist(),
                window: no_lines(),
                turn_index: 0,
                watermark: 0,
                channel: AgentChannel::new(id, seed),
            },
        );
        n = n + 1;
    }
    assert(slot_views(team@) =~= Seq::new(
        agents as nat,
        |i: int| fresh_slot((i + 1) as u64, seed),
    ));
    team
}

fn fresh_metas(count: usize, seed: u64) -> (metas: Vec<ControlSlot>)
    ensures
        control_views(metas@) == Seq::new(
            count as nat,
            |i: int| fresh_control(AgentId::Meta((i + 1) as u64), seed),
        ),
{
    let mut metas: Vec<ControlSlot> = Vec::new();
    let mut n: usize = 0;
    while n < count
        invariant
            0 <= n <= count,
            metas.len() == n,
            forall|k: int|
                0 <= k < n ==> (#[trigger] metas@[k])@ == fresh_control(
                    AgentId::Meta((k + 1) as u64),
                    seed,
                ),
        decreases count - n,
    {
        metas.push(ControlSlot::new(AgentId::Meta(n as u64 + 1), seed));
        n = n + 1;
    }
    assert(control_views(metas@) =~= Seq::new(
        count as nat,
        |i: int| fresh_control(AgentId::Meta((i + 1) as u64), seed),
    ));
    metas
}

/// Where the files of a run go: where the settings say, or under the id of the run.
pub fn run_dir(config: &RunConfig, run_id: RunId) -> (s: String)
    ensures
        s@ == match config.out_dir {
            Some(dir) => dir@,
            None => ".openteam/runs/"@ + hyphenated(run_id),
        },
{
    match &config.out_dir {
        Some(dir) => dir.clone(),
        None => {
            let mut s = ".openteam/runs/".to_owned();
            s.push_str(run_id_text(run_id).as_str());
            s
        },
    }
}

/// Makes the world of a run and logs its start.
pub fn start_run(config: &RunConfig, run_id: RunId, now: Timestamp) -> (world: World)
    requires
        config.agents < u64::MAX,
        config.meta_agents < u64::MAX,
    ensures
        world.valid(),
        world@ == blank_world(*config, now).log(
            EventSource::System,
            start_event(*config, run_id),
        ),
{
    let narrow: usize = if config.parallel <= config.agents {
        config.parallel
    } else {
        config.agents
    };
    let parallel: usize = if narrow < 1 { 1 } else { narrow };
    let mut world = World {
        goal: config.goal.clone(),
        seed: config.seed,
        now,
        board: Board::new(),
        messages: Vec::new(),
        mailboxes: Mailboxes::new(),
        store: KnowledgeStore::new(),
        directives: Vec::new(),
        next_task: 1,
        next_message: 1,
        next_directive: 1,
        next_event: 0,
        events: Vec::new(),
        metrics: Metrics::new(),
        team: fresh_team(config.agents, config.seed),
        orchestrator: ControlSlot::new(AgentId::Orchestrator, config.seed),
        metas: fresh_metas(config.meta_agents, config.seed),
        release_counts: Vec::new(),
        report: None,
        finish_requested: false,
        finishing: None,
        harness_error: None,
        first_tick_fired: false,
        forced_tick: false,
        ticks: 0,
        llm_calls: 0,
        turns_in_flight: 0,
        effective_parallelism: parallel,
        configured_parallelism: parallel,
        permit_debt: 0,
        permits: parallel,
    };
    assert(world@ =~= blank_world(*config, now));
    let scenario = match &config.scenario {
        Some(s) => Some(s.clone()),
        None => None,
    };
    world.append_event(
        EventSource::System,
        EventKind::RunStarted {
            run_id,
            seed: config.seed,
            goal: config.goal.clone(),
            agents: ((config.agents as u128) % 0x1_0000_0000) as u32,
            meta_agents: ((config.meta_agents as u128) % 0x1_0000_0000) as u32,
            parallel: ((parallel as u128) % 0x1_0000_0000) as u32,
            scenario,
            caps: RunCaps {
                max_ticks: config.max_ticks,
                max_llm_calls: config.max_llm_calls,
                max_duration_ms: config.max_duration_ms,
            },
        },
    );
    world
}

/// The time limit has passed: the run ends, unless it is finishing. Both numbers of the record are
/// the limit in whole seconds.
pub fn duration_elapsed(world: &mut World, max_duration_ms: u64)
    requires
        old(world).valid(),
        old(world)@.log_room(2, 0, 0),
    ensures
        final(world).valid(),
        final(world)@ == old(world)@.capped(
            CapKind::MaxDuration,
            max_duration_ms / 1000,
            max_duration_ms / 1000,
        ),
{
    let secs: u64 = max_duration_ms / 1000;
    world.trigger_cap(CapKind::MaxDuration, secs, secs);
}

/// How the run ended: as it says, or with a harness error if it says nothing.
pub open spec fn verdict(w: WorldView) -> (RunFinishReason, u8) {
    match w.finishing {
        Some(v) => v,
        None => (RunFinishReason::HarnessError, 1),
    }
}

/// The body of the report: the orchestrator's own, or why the run was terminated.
pub open spec fn report_body(w: WorldView) -> Seq<char> {
    match verdict(w).0 {
        RunFinishReason::CleanFinish => match w.report {
            Some(r) => r,
            None => "terminated: finish_run carried no report"@,
        },
        RunFinishReason::CapHit(cap) => "terminated: "@ + cap.name()
            + " cap before finish_run"@,
        RunFinishReason::HarnessError => "terminated: harness error before finish_run ("@ + (
        match w.harness_error {
            Some(e) => e,
            None => Seq::empty(),
        }) + ")"@,
    }
}

fn body_text(world: &World) -> (s: String)
    ensures
        s@ == report_body(world@),
{
    let reason = match world.finishing {
        Some((reason, _)) => reason,
        None => RunFinishReason::HarnessError,
    };
    match reason {
        RunFinishReason::CleanFinish => match &world.report {
            Some(r) => r.clone(),
            None => "terminated: finish_run carried no report".to_owned(),
        },
        RunFinishReason::CapHit(cap) => {
            let mut s = "terminated: ".to_owned();
            s.push_str(cap.as_str());
            s.push_str(" cap before finish_run");
            s
        },
        RunFinishReason::HarnessError => {
            let detail = match &world.harness_error {
                Some(e) => e.clone(),
                None => String::new(),
            };
            let mut s = "terminated: harness error before finish_run (".to_owned();
            s.push_str(detail.as_str());
            s.push_str(")");
            s
        },
    }
}

/// The report of a run with a summary: the body, a rule, and the summary.
pub open spec fn report_text(w: WorldView, summary: RunSummary) -> Seq<char> {
    report_body(w) + "\n\n---\n\n"@ + joined(summary.lines(), "\n"@) + "\n"@
}

/// The exit code and the report of a run: the body, a rule, and the run summary.
pub fn conclude_run(world: &World) -> (r: (u8, String))
    requires
        world@.metrics.room(0, 0, 0),
    ensures
        r.0 == verdict(world@).1,
        exists|summary: RunSummary|
            summary.of(world@.metrics) && r.1@ == #[trigger] report_text(world@, summary),
{
    let exit_code: u8 = match world.finishing {
        Some((_, code)) => code,
        None => 1,
    };
    let summary = world.metrics.summary();
    let mut report = body_text(world);
    report.push_str("\n\n---\n\n");
    report.push_str(summary.render().as_str());
    report.push_str("\n");
    assert(report@ == report_text(world@, summary));
    (exit_code, report)
}

/// Two summaries of the same metrics read the same.
pub proof fn summaries_agree(a: RunSummary, b: RunSummary, m: MetricsView)
    requires
        a.of(m),
        b.of(m),
    ensures
        a.lines() == b.lines(),
{
    assert(a.tokens_per_agent@ =~= b.tokens_per_agent@);
    assert(a.respecializations@.len() == crate::metrics::change_texts(a.respecializations@).len());
    assert(b.respecializations@.len() == crate::metrics::change_texts(b.respecializations@).len());
}

} // verus!
