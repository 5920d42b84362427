use openteam::agent::{AgentId, Role};
use openteam::directive::{Directive, DirectiveKind};
use openteam::dispatch::Replies;
use openteam::event::{
    CapKind, EventKind, EventSource, RunFinishReason, Timestamp, TurnOutcome, TurnUsage,
};
use openteam::exchange::{add_round, ask, carry_out, first_request, hear, Completion, TurnStep};
use openteam::ids::TaskId;
use openteam::json::Json;
use openteam::knowledge::{EmbedError, KnowledgeEntry, KnowledgeError, KnowledgeKind, ScoredEntry};
use openteam::mock::arc::{BehaviorModel, BuiltinArc};
use openteam::board::TaskState;
use openteam::run::{conclude_run, duration_elapsed, start_run, RunConfig, RunError};
use openteam::schedule::{
    plan_dispatches, return_permit, schedule_step, watchdog_step, ScheduleStep, TurnPlan, WatchStep,
};
use openteam::serve::discovery::{classify, RunState};
use openteam::serve::fold::{fold_events, AgentWireState};
use openteam::tools::{
    CancelTaskArgs, ClaimTaskArgs, CompleteTaskArgs, CreateTaskArgs, DeclineDirectiveArgs,
    DissolveTeamArgs, FinishRunArgs, FormTeamArgs, PostMessageArgs, ReleaseTaskArgs,
    RespecializeArgs, SearchKnowledgeArgs, SetParallelismArgs, SetTeamMembersArgs, SleepAgentArgs,
    SleepArgs, SpecialtyArgs, ToolOutcome, ToolRegistry, UnassignTaskArgs, VerbArgs, WakeAgentArgs,
    WriteKnowledgeArgs,
};
use openteam::turn::{
    begin_turn, completion_failed, end_turn_bookkeeping, finalize_turn, has_room, no_choices,
    retrieval_query, TurnProgress,
};
use openteam::wire::{
    ChatDecision, ChatMessage, ChatRequest, FinishReason, ResponseMessage, ToolCall, ToolChoice,
};
use openteam::llm::{LlmError, WireIdentity};
use openteam::world::{AgentState, ControlSlot, World, MALFORMED_PARK_K};
use serde_json::Value;

const EPOCH: Timestamp = Timestamp {
    millis: 0,
    nanos: 0,
};

// ---------------------------------------------------------------------------
// Calls.
// ---------------------------------------------------------------------------

fn value(text: &str) -> Value {
    serde_json::from_str(text).unwrap()
}

/// Arguments read as a verb's own; a key that the verb does not have is an error.
fn decode(name: &str, arguments: &str) -> Result<VerbArgs, String> {
    let v: Value = serde_json::from_str(arguments).map_err(|e| e.to_string())?;
    let keys: &[&str] = match name {
        "claim_task" => &["task"],
        "complete_task" => &["result"],
        "release_task" => &["reason"],
        "post_message" => &["to", "team", "broadcast", "body"],
        "write_knowledge" => &["text"],
        "search_knowledge" => &["query", "k"],
        "sleep" => &[],
        "create_task" => &["title", "description", "team"],
        "cancel_task" => &["task", "reason"],
        "unassign_task" => &["task", "reason", "in_response_to"],
        "form_team" => &["team", "members"],
        "dissolve_team" => &["team"],
        "set_team_members" => &["team", "members", "in_response_to"],
        "respecialize" => &["agent", "specialty", "in_response_to"],
        "sleep_agent" | "wake_agent" => &["agent"],
        "decline_directive" => &["directive", "reason"],
        "finish_run" => &["report"],
        "set_parallelism" => &["target"],
        "propose_respecialize" => &["agent", "specialty"],
        "propose_reallocate" => &["task", "reason"],
        "propose_rebalance" => &["team", "members"],
        _ => return Err("no such verb".to_string()),
    };
    let object = v.as_object().ok_or("not an object")?;
    for key in object.keys() {
        if !keys.contains(&key.as_str()) {
            return Err(format!("unknown field `{key}`"));
        }
    }
    let text = |key: &str| -> Result<String, String> {
        v[key]
            .as_str()
            .map(str::to_string)
            .ok_or(format!("missing field `{key}`"))
    };
    let whole = |key: &str| v[key].as_u64().ok_or(format!("missing field `{key}`"));
    let optional = |key: &str| v[key].as_str().map(str::to_string);
    let list = |key: &str| -> Vec<String> {
        v[key]
            .as_array()
            .into_iter()
            .flatten()
            .map(|item| item.as_str().unwrap().to_string())
            .collect()
    };
    let cite = v["in_response_to"].as_u64();
    Ok(match name {
        "claim_task" => VerbArgs::ClaimTask(ClaimTaskArgs {
            task: whole("task")?,
        }),
        "complete_task" => VerbArgs::CompleteTask(CompleteTaskArgs {
            result: text("result")?,
        }),
        "release_task" => VerbArgs::ReleaseTask(ReleaseTaskArgs {
            reason: optional("reason"),
        }),
        "post_message" => VerbArgs::PostMessage(PostMessageArgs {
            to: optional("to"),
            team: optional("team"),
            broadcast: v["broadcast"].as_bool(),
            body: text("body")?,
        }),
        "write_knowledge" => VerbArgs::WriteKnowledge(WriteKnowledgeArgs {
            text: text("text")?,
        }),
        "search_knowledge" => VerbArgs::SearchKnowledge(SearchKnowledgeArgs {
            query: text("query")?,
            k: v["k"].as_u64().map(|k| k as u32),
        }),
        "sleep" => VerbArgs::Sleep(SleepArgs {}),
        "create_task" => VerbArgs::CreateTask(CreateTaskArgs {
            title: text("title")?,
            description: text("description")?,
            team: optional("team"),
        }),
        "cancel_task" => VerbArgs::CancelTask(CancelTaskArgs {
            task: whole("task")?,
            reason: text("reason")?,
        }),
        "unassign_task" => VerbArgs::UnassignTask(UnassignTaskArgs {
            task: whole("task")?,
            reason: optional("reason"),
            in_response_to: cite,
        }),
        "form_team" => VerbArgs::FormTeam(FormTeamArgs {
            team: text("team")?,
            members: list("members"),
        }),
        "dissolve_team" => VerbArgs::DissolveTeam(DissolveTeamArgs {
            team: text("team")?,
        }),
        "set_team_members" => VerbArgs::SetTeamMembers(SetTeamMembersArgs {
            team: text("team")?,
            members: list("members"),
            in_response_to: cite,
        }),
        "respecialize" => VerbArgs::Respecialize(RespecializeArgs {
            agent: text("agent")?,
            specialty: SpecialtyArgs {
                name: v["specialty"]["name"].as_str().unwrap().to_string(),
                description: v["specialty"]["description"].as_str().unwrap().to_string(),
                focus: v["specialty"]["focus"].as_str().unwrap().to_string(),
            },
            in_response_to: cite,
        }),
        "sleep_agent" => VerbArgs::SleepAgent(SleepAgentArgs {
            agent: text("agent")?,
        }),
        "wake_agent" => VerbArgs::WakeAgent(WakeAgentArgs {
            agent: text("agent")?,
        }),
        "decline_directive" => VerbArgs::DeclineDirective(DeclineDirectiveArgs {
            directive: whole("directive")?,
            reason: text("reason")?,
        }),
        "finish_run" => VerbArgs::FinishRun(FinishRunArgs {
            report: text("report")?,
        }),
        "set_parallelism" => VerbArgs::SetParallelism(SetParallelismArgs {
            target: whole("target")? as u32,
        }),
        "propose_respecialize" => {
            VerbArgs::Propose(DirectiveKind::ProposeRespecialize, arguments.to_string())
        }
        "propose_reallocate" => {
            VerbArgs::Propose(DirectiveKind::ProposeReallocate, arguments.to_string())
        }
        _ => VerbArgs::Propose(DirectiveKind::ProposeRebalance, arguments.to_string()),
    })
}

fn no_replies() -> Replies {
    Replies {
        embedded: None,
        hits: Ok(vec![]),
    }
}

fn call(
    registry: &ToolRegistry,
    role: Role,
    caller: &AgentId,
    name: &str,
    arguments: &str,
    world: &mut World,
) -> ToolOutcome {
    registry.dispatch(
        role,
        caller,
        name,
        decode(name, arguments),
        no_replies(),
        world,
    )
}

fn rejected_with(outcome: &ToolOutcome, wanted: &str) -> bool {
    matches!(outcome, ToolOutcome::Rejected { code, .. } if code == wanted)
}

fn accepted(outcome: &ToolOutcome) -> bool {
    matches!(outcome, ToolOutcome::Accepted { .. })
}

fn result_of(outcome: &ToolOutcome) -> Value {
    value(&outcome.to_content())["result"].clone()
}

fn dispatch_world(agents: usize) -> (World, ToolRegistry) {
    let mut config = RunConfig::new("g");
    config.agents = agents;
    config.meta_agents = 0;
    config.seed = 7;
    let mut world = start_run(&config, 0, EPOCH);
    world.effective_parallelism = 2;
    world.configured_parallelism = 2;
    world.permits = 2;
    (world, registry())
}

#[test]
fn dispatch_separates_invalid_from_rejected() {
    let (mut world, registry) = dispatch_world(2);
    let orchestrator = AgentId::orchestrator();
    let agent = AgentId::team(1);

    // Unknown verb and bad args are schema faults: invalid.
    let unknown = call(&registry, Role::TeamAgent, &agent, "bogus", "{}", &mut world);
    assert!(matches!(unknown, ToolOutcome::Invalid { ref code, .. } if code == "unknown_verb"));
    let bad_args = call(
        &registry,
        Role::TeamAgent,
        &agent,
        "claim_task",
        "{\"task\": 1, \"stray\": true}",
        &mut world,
    );
    assert!(
        matches!(bad_args, ToolOutcome::Invalid { ref code, .. } if code == "invalid_arguments"),
        "stray keys are invalid"
    );
    // A verb outside the caller's registry is invalid even though it
    // exists for another role (dispatch is per-role).
    let cross_role = call(
        &registry,
        Role::TeamAgent,
        &agent,
        "create_task",
        "{\"title\": \"x\", \"description\": \"y\"}",
        &mut world,
    );
    assert!(matches!(cross_role, ToolOutcome::Invalid { .. }));

    // A lost claim race is a well-formed domain refusal: rejected.
    let created = call(
        &registry,
        Role::Orchestrator,
        &orchestrator,
        "create_task",
        "{\"title\": \"Alpha\", \"description\": \"d\"}",
        &mut world,
    );
    assert!(accepted(&created));
    let win = call(
        &registry,
        Role::TeamAgent,
        &agent,
        "claim_task",
        "{\"task\": 1}",
        &mut world,
    );
    assert!(accepted(&win));
    let lose = call(
        &registry,
        Role::TeamAgent,
        &AgentId::team(2),
        "claim_task",
        "{\"task\": 1}",
        &mut world,
    );
    assert!(
        rejected_with(&lose, "task_not_open"),
        "first claim wins; the loser is rejected, never invalid"
    );

    // finish_run with blockers enumerates them.
    let finish = call(
        &registry,
        Role::Orchestrator,
        &orchestrator,
        "finish_run",
        "{\"report\": \"r\"}",
        &mut world,
    );
    match finish {
        ToolOutcome::Rejected { code, message, .. } => {
            assert_eq!(code, "blockers");
            assert!(message.contains("task 1"), "blockers enumerated: {message}");
        }
        other => panic!("expected rejected blockers, got {other:?}"),
    }
}

const EDITOR: &str = "{\"agent\": \"agent-2\", \"specialty\": {\"name\": \"editor\", \"description\": \"d\", \"focus\": \"f\"}, \"in_response_to\": 9}";

#[test]
fn sleep_wake_and_respecialize_guards() {
    let (mut world, registry) = dispatch_world(2);
    let orchestrator = AgentId::orchestrator();
    let agent = AgentId::team(1);
    let lead = Role::Orchestrator;

    // Working agents cannot self-sleep.
    call(
        &registry,
        lead,
        &orchestrator,
        "create_task",
        "{\"title\": \"A\", \"description\": \"d\"}",
        &mut world,
    );
    call(&registry, Role::TeamAgent, &agent, "claim_task", "{\"task\": 1}", &mut world);
    let sleep_working = call(&registry, Role::TeamAgent, &agent, "sleep", "{}", &mut world);
    assert!(rejected_with(&sleep_working, "not_idle"));

    // Respecializing a non-Idle agent is illegal.
    let respec_working = call(
        &registry,
        lead,
        &orchestrator,
        "respecialize",
        "{\"agent\": \"agent-1\", \"specialty\": {\"name\": \"doc-curator\", \"description\": \"d\", \"focus\": \"f\"}}",
        &mut world,
    );
    assert!(rejected_with(&respec_working, "not_idle"));

    // Idle agent-2: orchestrator sleep, wake restores Idle; double wake rejected.
    let second = "{\"agent\": \"agent-2\"}";
    let slept = call(&registry, lead, &orchestrator, "sleep_agent", second, &mut world);
    assert!(accepted(&slept));
    let woke = call(&registry, lead, &orchestrator, "wake_agent", second, &mut world);
    assert!(accepted(&woke));
    let woke_again = call(&registry, lead, &orchestrator, "wake_agent", second, &mut world);
    assert!(
        rejected_with(&woke_again, "not_asleep"),
        "wake is legal only from Asleep"
    );

    // Respecialize the idle agent: wipes the window, emits the event,
    // and the channel keeps its monotonic call-seq.
    world.team[1]
        .window
        .push("- [turn 1] write_knowledge{\"x\"} -> ok".into());
    let respec = call(
        &registry,
        lead,
        &orchestrator,
        "respecialize",
        "{\"agent\": \"agent-2\", \"specialty\": {\"name\": \"doc-curator\", \"description\": \"Reviews docs.\", \"focus\": \"review\"}}",
        &mut world,
    );
    assert!(accepted(&respec));
    let slot = &world.team[1];
    assert!(slot.window.is_empty(), "respecialize wipes the window");
    assert_eq!(slot.profile.slug.as_str(), "doc-curator");
    assert!(world.events.iter().any(|e| matches!(
        &e.kind,
        EventKind::AgentRespecialized { agent, via_directive: None, .. } if agent == &AgentId::team(2)
    )));

    // A cite of an unknown directive is rejected before acting.
    let bad_cite = call(&registry, lead, &orchestrator, "respecialize", EDITOR, &mut world);
    assert!(rejected_with(&bad_cite, "unknown_directive"));
}

#[test]
fn directive_round_trip_and_addressing() {
    let (mut world, registry) = dispatch_world(2);
    let orchestrator = AgentId::orchestrator();
    let lead = Role::Orchestrator;
    let meta = AgentId::meta(1);
    world.metas.push(ControlSlot::new(meta, 7));

    // Judgment: propose → pending → fulfilled via cited respecialize.
    let proposed = call(
        &registry,
        Role::MetaAgent,
        &meta,
        "propose_respecialize",
        "{\"agent\": \"agent-1\", \"specialty\": \"doc-curator\"}",
        &mut world,
    );
    assert!(accepted(&proposed));
    assert_eq!(result_of(&proposed)["directive_id"], 1);
    let fulfilled = call(
        &registry,
        lead,
        &orchestrator,
        "respecialize",
        "{\"agent\": \"agent-1\", \"specialty\": {\"name\": \"doc-curator\", \"description\": \"d\", \"focus\": \"f\"}, \"in_response_to\": 1}",
        &mut world,
    );
    assert!(accepted(&fulfilled));
    assert!(world.events.iter().any(|e| matches!(
        &e.kind,
        EventKind::DirectiveFulfilled { directive, .. } if directive.get() == 1
    )));
    assert!(world.events.iter().any(|e| matches!(
        &e.kind,
        EventKind::AgentRespecialized { via_directive: Some(d), .. } if d.get() == 1
    )));

    // Declining a resolved directive is rejected; a fresh one declines.
    let decline_resolved = call(
        &registry,
        lead,
        &orchestrator,
        "decline_directive",
        "{\"directive\": 1, \"reason\": \"already acted\"}",
        &mut world,
    );
    assert!(rejected_with(&decline_resolved, "directive_not_pending"));
    call(
        &registry,
        Role::MetaAgent,
        &meta,
        "propose_reallocate",
        "{\"task\": 1, \"reason\": \"seems stuck\"}",
        &mut world,
    );
    let declined = call(
        &registry,
        lead,
        &orchestrator,
        "decline_directive",
        "{\"directive\": 2, \"reason\": \"allocation is fine\"}",
        &mut world,
    );
    assert!(accepted(&declined));
    assert!(world.events.iter().any(|e| matches!(
        &e.kind,
        EventKind::DirectiveDeclined { directive, .. } if directive.get() == 2
    )));
    // The decline priority-wakes the observing meta.
    assert!(world.metas[0].priority);

    // Mechanical set_parallelism clamps to [1, --parallel] and records
    // the applied effect.
    let clamped = call(
        &registry,
        Role::MetaAgent,
        &meta,
        "set_parallelism",
        "{\"target\": 99}",
        &mut world,
    );
    assert!(accepted(&clamped));
    assert_eq!(result_of(&clamped)["effective"], 2, "clamped to the CLI --parallel");
    assert!(world.events.iter().any(|e| matches!(
        &e.kind,
        EventKind::ParallelismChanged {
            requested: 99,
            effective: 2,
            ..
        }
    )));

    // A guard-failed mechanical emits NO directive_issued.
    let issued = |world: &World| {
        world
            .events
            .iter()
            .filter(|e| matches!(e.kind, EventKind::DirectiveIssued { .. }))
            .count()
    };
    let issued_before = issued(&world);
    let refused = call(
        &registry,
        Role::MetaAgent,
        &meta,
        "wake_agent",
        "{\"agent\": \"agent-2\"}",
        &mut world,
    );
    assert!(matches!(refused, ToolOutcome::Rejected { .. }));
    assert_eq!(issued_before, issued(&world));

    // Addressing: exactly one form; meta targets refused; broadcast
    // excludes the sender and the metas.
    let two_forms = call(
        &registry,
        lead,
        &orchestrator,
        "post_message",
        "{\"to\": \"agent-1\", \"broadcast\": true, \"body\": \"x\"}",
        &mut world,
    );
    assert!(rejected_with(&two_forms, "invalid_address"));
    let to_meta = call(
        &registry,
        lead,
        &orchestrator,
        "post_message",
        "{\"to\": \"meta-1\", \"body\": \"x\"}",
        &mut world,
    );
    assert!(rejected_with(&to_meta, "invalid_address"));
    let broadcast = call(
        &registry,
        lead,
        &orchestrator,
        "post_message",
        "{\"broadcast\": true, \"body\": \"hello team\"}",
        &mut world,
    );
    assert!(accepted(&broadcast));
    assert_eq!(world.mailboxes.depth(&AgentId::team(1)), 1);
    assert_eq!(world.mailboxes.depth(&AgentId::team(2)), 1);
    assert_eq!(world.mailboxes.depth(&orchestrator), 0, "sender excluded");
    assert_eq!(world.mailboxes.depth(&meta), 0, "metas get no broadcasts");
}

#[test]
fn watchdog_predicate_fires_despite_a_stale_pending_directive() {
    let (mut world, registry) = dispatch_world(1);
    let orchestrator = AgentId::orchestrator();
    let agent = AgentId::team(1);
    let meta = AgentId::meta(1);
    world.metas.push(ControlSlot::new(meta, 7));

    // The deadlock shape: one Open task, the whole pool Asleep, plus a
    // judgment directive the orchestrator never resolves.
    call(
        &registry,
        Role::Orchestrator,
        &orchestrator,
        "create_task",
        "{\"title\": \"Orphaned work\", \"description\": \"d\"}",
        &mut world,
    );
    call(&registry, Role::TeamAgent, &agent, "sleep", "{}", &mut world);
    call(
        &registry,
        Role::MetaAgent,
        &meta,
        "propose_respecialize",
        "{\"agent\": \"agent-1\", \"specialty\": \"doc-curator\"}",
        &mut world,
    );
    assert!(world.directives.iter().any(Directive::is_pending));
    world.first_tick_fired = true;

    // The enqueue is still a dispatch edge: `directive_issued` sits
    // beyond the orchestrator's watermark, so a tick fires to render it.
    world.orchestrator.watermark = 0;
    assert!(world.would_dispatch(), "the enqueue edge dispatches a tick");

    // Once a tick has rendered the directive (watermark past its event)
    // and the meta is caught up, a still-pending directive generates no
    // further dispatches — and the fire condition holds regardless.
    world.orchestrator.watermark = world.events.len();
    world.metas[0].unobserved = 0;
    assert!(
        !world.would_dispatch(),
        "a stale pending directive is not dispatchable input"
    );
    assert_eq!(
        world.liveness_predicate(),
        Some((1, 0)),
        "quiescent-unfinished fires despite the pending directive"
    );
    assert_eq!(watchdog_step(&mut world), WatchStep::Force);
    assert!(world.forced_tick);
    assert!(world.would_dispatch());
    assert!(matches!(
        world.events.last().unwrap().kind,
        EventKind::LivenessNudge {
            board_open: 1,
            claimed_by_asleep: 0
        }
    ));
}

// ---------------------------------------------------------------------------
// Whole runs, one turn at a time.
// ---------------------------------------------------------------------------

fn saying(text: &str) -> ChatDecision {
    ChatDecision {
        message: ResponseMessage {
            content: Some(text.to_string()),
            tool_calls: None,
        },
        finish: FinishReason::Stop,
    }
}

fn calling(calls: &[(&str, &str)]) -> ChatDecision {
    ChatDecision {
        message: ResponseMessage {
            content: None,
            tool_calls: Some(
                calls
                    .iter()
                    .enumerate()
                    .map(|(i, (name, arguments))| ToolCall {
                        id: format!("call_{i}"),
                        name: name.to_string(),
                        arguments: arguments.to_string(),
                    })
                    .collect(),
            ),
        },
        finish: FinishReason::ToolCalls,
    }
}

fn section<'a>(user_msg: &'a str, header: &str) -> Vec<&'a str> {
    let mut in_section = false;
    let mut lines = Vec::new();
    for line in user_msg.lines() {
        if let Some(h) = line.strip_prefix("## ") {
            in_section = h == header;
            continue;
        }
        if in_section && !line.is_empty() {
            lines.push(line);
        }
    }
    lines
}

fn user_text(req: &ChatRequest) -> String {
    req.messages
        .iter()
        .find_map(|m| match m {
            ChatMessage::User { content } => Some(content.clone()),
            _ => None,
        })
        .unwrap_or_default()
}

/// Claims, writes one note, completes; the orchestrator makes two tasks and finishes.
fn mini_arc(id: &WireIdentity, req: &ChatRequest) -> ChatDecision {
    if matches!(req.messages.last(), Some(ChatMessage::Tool { .. })) {
        return saying("Acted this turn; yielding.");
    }
    let shown = user_text(req);
    if id.user == "orchestrator" {
        let board = section(&shown, "Board digest");
        let tasks: Vec<&&str> = board.iter().filter(|l| l.starts_with("- task ")).collect();
        if tasks.is_empty() {
            return calling(&[
                (
                    "create_task",
                    "{\"title\": \"Alpha\", \"description\": \"First half.\"}",
                ),
                (
                    "create_task",
                    "{\"title\": \"Beta\", \"description\": \"Second half.\"}",
                ),
            ]);
        }
        if tasks
            .iter()
            .all(|l| l.contains("[Done]") || l.contains("[Cancelled]"))
        {
            return calling(&[(
                "finish_run",
                "{\"report\": \"# Result\\nBoth halves done.\"}",
            )]);
        }
        return saying("Waiting on the team.");
    }
    if id.user.starts_with("meta-agent:") {
        return saying("Observing.");
    }
    let claimed = section(&shown, "Claimed task");
    if claimed.first().is_some_and(|l| l.starts_with("task ")) {
        let worked = section(&shown, "Recent activity")
            .iter()
            .filter(|l| {
                l.contains("write_knowledge{")
                    || l.contains("post_message{")
                    || l.contains("search_knowledge{")
            })
            .count();
        if worked >= 1 {
            return calling(&[(
                "complete_task",
                "{\"result\": \"Half of the guide, drafted.\"}",
            )]);
        }
        return calling(&[("write_knowledge", "{\"text\": \"Progress note on my half.\"}")]);
    }
    match section(&shown, "Board digest")
        .iter()
        .find(|l| l.starts_with("- task ") && l.contains("[Open]"))
    {
        Some(open) => {
            let task: u64 = open
                .trim_start_matches("- task ")
                .split_whitespace()
                .next()
                .and_then(|s| s.parse().ok())
                .unwrap_or(1);
            calling(&[("claim_task", &format!("{{\"task\": {task}}}"))])
        }
        None => saying("No eligible work."),
    }
}

type Model = dyn Fn(&WireIdentity, &ChatRequest) -> ChatDecision;

/// One turn, and how many completions it took.
fn turn(
    world: &mut World,
    registry: &ToolRegistry,
    config: &RunConfig,
    plan: &TurnPlan,
    model: &Model,
) -> usize {
    let (agent, role) = (plan.agent, plan.role);
    let _ = retrieval_query(world, &agent, role);
    let Some(start) = begin_turn(world, &agent, role, config.assembly_budget, &vec![]) else {
        return 0;
    };
    let mut progress = TurnProgress::new(
        agent,
        role,
        start.turn_index,
        start.first_call_seq,
        start.on_task,
    );
    let mut req = first_request(&config.model, start, role, registry.tool_defs(role));
    let mut completions = 0;
    loop {
        let Some(identity) = ask(world, &progress, config.max_llm_calls) else {
            return completions;
        };
        let decision = model(&identity, &req);
        completions += 1;
        let reply = Completion {
            usage: TurnUsage {
                prompt: 10,
                completion: 5,
                total: 15,
            },
            message: Some(decision.message),
        };
        let (content, calls) = match hear(world, &mut progress, Ok(reply)) {
            TurnStep::Over => return completions,
            TurnStep::End(outcome) => {
                finalize_turn(world, &progress, outcome, config.max_ticks, None);
                return completions;
            }
            TurnStep::Act { content, calls } => (content, calls),
        };
        let mut outcomes = vec![];
        for made in &calls {
            let decoded = decode(&made.name, &made.arguments);
            outcomes.push(carry_out(
                world,
                &mut progress,
                registry,
                made,
                decoded,
                no_replies(),
            ));
        }
        add_round(&mut req.messages, content, calls, &outcomes);
        if let Some(outcome) = progress.end_round(config.max_tool_iters) {
            finalize_turn(world, &progress, outcome, config.max_ticks, None);
            return completions;
        }
    }
}

struct Ran {
    world: World,
    exit_code: u8,
    report: String,
    team_completions: usize,
    most_at_once: usize,
}

fn run(config: &RunConfig, model: &Model) -> Ran {
    run_as(config, model, 0, 0)
}

/// A run with a number of its own, whose clock goes on by some milliseconds with each step.
fn run_as(config: &RunConfig, model: &Model, number: u128, pace: i64) -> Ran {
    let registry = registry();
    let mut world = start_run(config, number, EPOCH);
    let mut team_completions = 0;
    let mut most_at_once = 0;
    for _ in 0..10_000 {
        world.now.millis += pace;
        match schedule_step(&mut world, None) {
            ScheduleStep::Stop => break,
            ScheduleStep::Run(plans) => {
                let team = plans.iter().filter(|p| p.role == Role::TeamAgent).count();
                most_at_once = most_at_once.max(team);
                if plans.is_empty() {
                    match watchdog_step(&mut world) {
                        WatchStep::Quiet => panic!("nothing to do and not stalled"),
                        _ => continue,
                    }
                }
                for plan in &plans {
                    let made = turn(&mut world, &registry, config, plan, model);
                    if plan.role == Role::TeamAgent {
                        team_completions += made;
                        return_permit(&mut world);
                    }
                }
            }
        }
    }
    let (exit_code, report) = conclude_run(&world);
    Ran {
        world,
        exit_code,
        report,
        team_completions,
        most_at_once,
    }
}

fn test_config(agents: usize, meta: usize) -> RunConfig {
    let mut config = RunConfig::new("Write a short onboarding guide for new contributors");
    config.agents = agents;
    config.meta_agents = meta;
    config.parallel = agents;
    config.seed = 7;
    config
}

#[test]
fn mini_run_converges_clean_with_board_conservation() {
    let ran = run(&test_config(2, 1), &mini_arc);
    assert_eq!(ran.exit_code, 0);
    assert!(ran.report.contains("## Run summary"));
    assert!(ran.report.contains("Both halves done."));

    let events = &ran.world.events;
    assert!(matches!(events[0].kind, EventKind::RunStarted { .. }));
    let created: Vec<u64> = events
        .iter()
        .filter_map(|e| match &e.kind {
            EventKind::TaskCreated { task, .. } => Some(task.get()),
            _ => None,
        })
        .collect();
    let completed = events
        .iter()
        .filter(|e| matches!(e.kind, EventKind::TaskCompleted { .. }))
        .count();
    assert_eq!(created, vec![1, 2], "predictable 1-based TaskIds");
    assert_eq!(completed, 2, "board conservation: all created end Done");
    assert!(
        !events
            .iter()
            .any(|e| matches!(e.kind, EventKind::LivenessNudge { .. })),
        "liveness must never fire on the happy path"
    );
    assert!(
        !events
            .iter()
            .any(|e| matches!(e.kind, EventKind::ContextDegraded { .. })),
        "no degradation on the happy path"
    );
    let last = events.last().unwrap();
    assert!(
        matches!(
            last.kind,
            EventKind::RunFinished {
                reason: RunFinishReason::CleanFinish,
                exit_code: 0
            }
        ),
        "run_finished is the final event"
    );
    assert_eq!(last.source, EventSource::Agent(AgentId::orchestrator()));
    for (i, event) in events.iter().enumerate() {
        assert_eq!(event.id.get(), i as u64);
    }
    assert!(ran
        .world
        .board
        .tasks()
        .iter()
        .all(|t| matches!(t.state, TaskState::Done { .. })));
    assert!(ran.world.store.entry_count() >= 2, "completions ingested");

    // The log alone gives the board and the agents back.
    let folded = fold_events(events).unwrap();
    assert_eq!(folded.board.tasks(), ran.world.board.tasks());
    assert_eq!(folded.board.teams(), ran.world.board.teams());
    for entry in folded.agents.into_entries() {
        assert_eq!(entry.state, AgentWireState::Idle);
    }
}

#[test]
fn k3_malformed_turns_park_preserving_the_claim() {
    let mut config = test_config(1, 0);
    config.max_ticks = Some(8);
    let ran = run(&config, &|id, _| {
        if id.user == "orchestrator" {
            if id.call_seq == 0 {
                calling(&[("create_task", "{\"title\": \"Alpha\", \"description\": \"d\"}")])
            } else {
                saying("waiting")
            }
        } else if id.call_seq == 0 {
            calling(&[("claim_task", "{\"task\": 1}")])
        } else if id.call_seq % 2 == 0 {
            calling(&[("bogus_verb", "{}")])
        } else {
            saying("hm")
        }
    });
    assert_eq!(ran.exit_code, 2, "stalls out on the tick cap");
    let events = &ran.world.events;
    let parks: Vec<u32> = events
        .iter()
        .filter_map(|e| match &e.kind {
            EventKind::AgentParked { count, .. } => Some(*count),
            _ => None,
        })
        .collect();
    assert_eq!(parks, vec![MALFORMED_PARK_K], "parked exactly once at K=3");
    let malformed_turns = events
        .iter()
        .filter(|e| {
            matches!(
                &e.kind,
                EventKind::TurnCompleted {
                    malformed: true,
                    ..
                }
            ) && e.source == EventSource::Agent(AgentId::team(1))
        })
        .count();
    assert_eq!(malformed_turns, 3, "three consecutive malformed turns");
    assert_eq!(
        ran.world.board.task(TaskId::new(1)).unwrap().state,
        TaskState::Claimed {
            by: AgentId::team(1)
        },
        "park preserves the claimed task"
    );
    assert_eq!(ran.world.team[0].state, AgentState::Asleep);
    let folded = fold_events(events).unwrap();
    assert_eq!(
        folded.agents.into_entries()[0].state,
        AgentWireState::Parked
    );
}

#[test]
fn liveness_fires_only_when_quiescent_but_unfinished_and_never_wakes() {
    let mut config = test_config(1, 0);
    config.max_ticks = Some(4);
    let ran = run(&config, &|id, _| {
        if id.user == "orchestrator" {
            if id.call_seq == 0 {
                calling(&[("create_task", "{\"title\": \"Alpha\", \"description\": \"d\"}")])
            } else {
                saying("waiting")
            }
        } else if id.call_seq == 0 {
            calling(&[("sleep", "{}")])
        } else {
            saying("zzz")
        }
    });
    assert_eq!(ran.exit_code, 2);
    let events = &ran.world.events;
    let nudges = events
        .iter()
        .filter(|e| matches!(e.kind, EventKind::LivenessNudge { .. }))
        .count();
    assert!(nudges >= 1, "the deadlock breaker fired");
    assert!(
        !events
            .iter()
            .any(|e| matches!(e.kind, EventKind::AgentWoke { .. })),
        "the nudge never auto-wakes team agents"
    );
    assert!(
        events
            .iter()
            .any(|e| matches!(e.kind, EventKind::AgentSlept { .. })),
        "the self-sleep was recorded"
    );
    assert!(ran.report.starts_with("terminated: MaxTicks cap before finish_run\n\n---\n\n"));
}

#[test]
fn edge_triggered_dispatch_never_busy_spins_a_declining_agent() {
    let mut config = test_config(2, 0);
    config.max_ticks = Some(3);
    let ran = run(&config, &|id, _| {
        if id.user == "orchestrator" && id.call_seq == 0 {
            calling(&[("create_task", "{\"title\": \"Alpha\", \"description\": \"d\"}")])
        } else {
            saying("Declining.")
        }
    });
    assert_eq!(ran.exit_code, 2);
    assert!(
        ran.team_completions <= 12,
        "declining idle agents must only re-dispatch on fresh nudges, got {} completions",
        ran.team_completions
    );
}

#[test]
fn parallel_one_still_converges() {
    let mut config = test_config(2, 0);
    config.parallel = 1;
    let ran = run(&config, &mini_arc);
    assert_eq!(ran.exit_code, 0);
    assert_eq!(
        ran.most_at_once, 1,
        "the --parallel semaphore serializes team-agent completions"
    );
}

#[test]
fn the_builtin_behaviour_converges_on_its_own() {
    for seed in [0_u64, 1, 7, 42, 4_294_967_291] {
        let mut config = test_config(3, 1);
        config.seed = seed;
        config.max_ticks = Some(400);
        let ran = run(&config, &|id, req| BuiltinArc::new().chat(req, id));
        assert_eq!(ran.exit_code, 0, "seed {seed}: {}", ran.report);
        let created = ran.world.board.tasks().len() as u64;
        assert_eq!(created, BuiltinArc::task_budget(seed), "seed {seed}");
        let folded = fold_events(&ran.world.events).unwrap();
        assert_eq!(folded.board.tasks(), ran.world.board.tasks());
    }
}

fn registry() -> ToolRegistry {
    let schemas = schemas()
        .iter()
        .map(|(name, schema)| (name.to_string(), Json::parse(schema).unwrap()))
        .collect();
    ToolRegistry::new(&schemas).unwrap()
}

fn schemas() -> Vec<(&'static str, String)> {
    let strict = |keys: &[&str], required: &[&str]| {
        let properties: Vec<String> = keys.iter().map(|k| format!("\"{k}\":{{}}")).collect();
        let needed: Vec<String> = required.iter().map(|k| format!("\"{k}\"")).collect();
        format!(
            "{{\"properties\":{{{}}},\"required\":[{}],\"additionalProperties\":false}}",
            properties.join(","),
            needed.join(",")
        )
    };
    vec![
        ("claim_task", strict(&["task"], &["task"])),
        ("complete_task", strict(&["result"], &["result"])),
        ("release_task", strict(&["reason"], &[])),
        (
            "post_message",
            strict(&["to", "team", "broadcast", "body"], &["body"]),
        ),
        ("write_knowledge", strict(&["text"], &["text"])),
        ("search_knowledge", strict(&["query", "k"], &["query"])),
        ("sleep", strict(&[], &[])),
        (
            "create_task",
            strict(&["title", "description", "team"], &["title", "description"]),
        ),
        ("form_team", strict(&["team", "members"], &["team", "members"])),
        (
            "set_team_members",
            strict(&["team", "members", "in_response_to"], &["team", "members"]),
        ),
        (
            "unassign_task",
            strict(&["task", "reason", "in_response_to"], &["task"]),
        ),
        (
            "respecialize",
            strict(
                &["agent", "specialty", "in_response_to"],
                &["agent", "specialty"],
            ),
        ),
        (
            "decline_directive",
            strict(&["directive", "reason"], &["directive", "reason"]),
        ),
        ("finish_run", strict(&["report"], &["report"])),
        ("set_parallelism", strict(&["target"], &["target"])),
        (
            "propose_respecialize",
            strict(&["agent", "specialty"], &["agent", "specialty"]),
        ),
        (
            "propose_reallocate",
            strict(&["task", "reason"], &["task", "reason"]),
        ),
        (
            "propose_rebalance",
            strict(&["team", "members"], &["team", "members"]),
        ),
        ("cancel_task", strict(&["task", "reason"], &["task", "reason"])),
        ("dissolve_team", strict(&["team"], &["team"])),
        ("sleep_agent", strict(&["agent"], &["agent"])),
        ("wake_agent", strict(&["agent"], &["agent"])),
    ]
}

// ---------------------------------------------------------------------------
// The edges of a run.
// ---------------------------------------------------------------------------

#[test]
fn run_settings_have_their_defaults() {
    let config = RunConfig::new("g");
    assert_eq!(config.goal, "g");
    assert_eq!((config.agents, config.meta_agents, config.parallel), (4, 1, 4));
    assert_eq!(config.max_tool_iters, 8);
    assert_eq!(config.model, "openteam-mock");
    assert_eq!(config.seed, 0);
    assert!(config.max_ticks.is_none() && config.out_dir.is_none());
    assert_eq!(
        RunError::Artifacts("no space".to_string()).message(),
        "failed to create run artifacts: no space"
    );
}

#[test]
fn a_run_is_as_wide_as_its_team_and_at_least_one() {
    let mut config = RunConfig::new("g");
    config.parallel = 9;
    config.agents = 3;
    assert_eq!(start_run(&config, 1, EPOCH).permits, 3);
    config.parallel = 0;
    assert_eq!(start_run(&config, 1, EPOCH).permits, 1);
}

fn completion(message: Option<ResponseMessage>) -> Completion {
    Completion {
        usage: TurnUsage {
            prompt: 4,
            completion: 2,
            total: 6,
        },
        message,
    }
}

#[test]
fn runs_of_one_seed_go_the_same_way() {
    for seed in 0..6 {
        let mut config = test_config(3, 1);
        config.seed = seed;
        config.max_ticks = Some(400);
        let arc: &Model = &|id, req| BuiltinArc::new().chat(req, id);
        let first = run_as(&config, arc, 1, 0);
        let again = run_as(&config, arc, 2, 1700);
        assert_eq!(first.exit_code, again.exit_code);
        assert_eq!(first.world.events.len(), again.world.events.len());
        for (a, b) in first.world.events.iter().zip(&again.world.events).skip(1) {
            assert_eq!((a.id, a.source), (b.id, b.source));
            assert_eq!(format!("{:?}", a.kind), format!("{:?}", b.kind));
        }
        assert_ne!(
            first.world.events.last().unwrap().at,
            again.world.events.last().unwrap().at
        );
        let shown = |r: &Ran| {
            let lines = r.report.lines().filter(|l| !l.starts_with("- Duration"));
            lines.map(str::to_owned).collect::<Vec<_>>()
        };
        assert_eq!(shown(&first), shown(&again));
        config.seed = seed + 100;
        assert_ne!(shown(&first), shown(&run(&config, arc)));
    }
}

#[test]
fn a_turn_asks_hears_acts_and_answers() {
    let config = test_config(1, 1);
    let registry = registry();
    let mut world = start_run(&config, 0, EPOCH);
    let orchestrator = AgentId::orchestrator();
    let start = begin_turn(&mut world, &orchestrator, Role::Orchestrator, None, &vec![]).unwrap();
    let mut p = TurnProgress::new(
        orchestrator,
        Role::Orchestrator,
        start.turn_index,
        start.first_call_seq,
        start.on_task,
    );
    let prompt = start.user.clone();
    let mut req = first_request(
        "m",
        start,
        Role::Orchestrator,
        registry.tool_defs(Role::Orchestrator),
    );
    assert_eq!(req.messages.len(), 2);
    assert_eq!(req.messages[1], ChatMessage::User { content: prompt });
    assert_eq!(req.tools.len(), registry.tool_defs(Role::Orchestrator).len());
    assert_eq!(req.tools[0].name, registry.tool_defs(Role::Orchestrator)[0].name);
    assert_eq!(req.tool_choice, Some(ToolChoice::Auto));
    assert_eq!(req.parallel_tool_calls, Some(true));

    let id = ask(&mut world, &p, Some(2)).unwrap();
    assert_eq!((id.user.as_str(), id.call_seq, id.seed), ("orchestrator", 0, 7));
    assert_eq!(world.llm_calls, 1);
    let message = calling(&[
        ("create_task", "{\"title\": \"A\", \"description\": \"d\"}"),
        ("bogus", "{}"),
    ])
    .message;
    let TurnStep::Act { content, calls } = hear(&mut world, &mut p, Ok(completion(Some(message))))
    else {
        panic!("calls are carried out");
    };
    assert_eq!((p.completions, p.tool_iters, p.usage.total), (1, 1, 6));
    let mut outcomes = vec![];
    for made in &calls {
        let decoded = decode(&made.name, &made.arguments);
        outcomes.push(carry_out(&mut world, &mut p, &registry, made, decoded, no_replies()));
    }
    assert!(p.any_success && !p.all_invalid && !p.finish_hit);
    let ids: Vec<String> = calls.iter().map(|c| c.id.clone()).collect();
    add_round(&mut req.messages, content, calls, &outcomes);
    assert_eq!(req.messages.len(), 5);
    assert!(matches!(&req.messages[2], ChatMessage::Assistant { tool_calls: Some(c), .. } if c.len() == 2));
    assert_eq!(
        req.messages[3],
        ChatMessage::Tool {
            content: "{\"status\":\"ok\",\"result\":{\"task\":1}}".to_string(),
            tool_call_id: ids[0].clone(),
        }
    );
    assert!(matches!(&req.messages[4], ChatMessage::Tool { tool_call_id, .. } if *tool_call_id == ids[1]));

    let id = ask(&mut world, &p, Some(2)).unwrap();
    assert_eq!(id.call_seq, 1);
    assert!(matches!(
        hear(&mut world, &mut p, Ok(completion(Some(saying("done").message)))),
        TurnStep::End(TurnOutcome::Yielded)
    ));
    assert!(ask(&mut world, &p, Some(2)).is_none());
    assert!(matches!(world.finishing, Some((RunFinishReason::CapHit(_), 2))));
    assert!(ask(&mut world, &p, None).is_none());
}

#[test]
fn a_reply_that_fails_or_holds_no_choice_ends_the_run() {
    let config = test_config(1, 0);
    let orchestrator = AgentId::orchestrator();
    let mut world = start_run(&config, 0, EPOCH);
    let mut p = TurnProgress::new(orchestrator, Role::Orchestrator, 1, 0, None);
    let down = LlmError::Transport("down".to_string());
    assert!(matches!(hear(&mut world, &mut p, Err(down)), TurnStep::Over));
    assert_eq!(
        world.harness_error.as_deref(),
        Some("llm completion failed for orchestrator: llm transport error: down")
    );
    assert_eq!(p.completions, 0);

    let mut world = start_run(&config, 0, EPOCH);
    assert!(matches!(hear(&mut world, &mut p, Ok(completion(None))), TurnStep::Over));
    assert_eq!(
        world.harness_error.as_deref(),
        Some("llm returned no choices for orchestrator")
    );
    assert_eq!(p.completions, 1);

    let message = calling(&[("sleep", "{}")]).message;
    let late = hear(&mut world, &mut p, Ok(completion(Some(message))));
    assert!(matches!(late, TurnStep::Over));
}

#[test]
fn runs_that_end_early_say_why() {
    let config = test_config(1, 0);
    let mut timed = start_run(&config, 0, EPOCH);
    duration_elapsed(&mut timed, 20_500);
    assert!(matches!(
        timed.events[1].kind,
        EventKind::CapHit {
            limit: 20,
            observed: 20,
            ..
        }
    ));
    let (code, report) = conclude_run(&timed);
    assert_eq!(code, 2);
    assert!(report.starts_with("terminated: MaxDuration cap before finish_run\n"));

    let mut failed = start_run(&config, 0, EPOCH);
    completion_failed(&mut failed, &AgentId::orchestrator(), Role::Orchestrator, "down");
    let (code, report) = conclude_run(&failed);
    assert_eq!(code, 1);
    assert!(report.starts_with(
        "terminated: harness error before finish_run (llm completion failed for orchestrator: down)\n"
    ));

    let mut empty = start_run(&config, 0, EPOCH);
    no_choices(&mut empty, &AgentId::orchestrator(), Role::Orchestrator);
    assert_eq!(conclude_run(&empty).0, 1);

    let mut unwritten = start_run(&config, 0, EPOCH);
    assert!(matches!(
        schedule_step(&mut unwritten, Some("disk full".to_string())),
        ScheduleStep::Stop
    ));
    assert_eq!(
        unwritten.harness_error.as_deref(),
        Some("events.jsonl write failed: disk full")
    );
}

/// Holds a world to how it ended: the last event says so, and no other event ends a run.
fn ended_as(mut world: World, reason: RunFinishReason, code: u8) {
    assert_eq!(world.finishing, Some((reason, code)));
    let endings = world
        .events
        .iter()
        .filter(|e| matches!(e.kind, EventKind::RunFinished { .. }))
        .count();
    assert_eq!(endings, 1);
    let last = world.events.pop();
    assert_eq!(classify(&last, true), RunState::Finished);
    assert!(matches!(
        last.unwrap().kind,
        EventKind::RunFinished { reason: r, exit_code: c } if r == reason && c == code
    ));
    // Without its ending the log is that of a live run, or of one that broke off.
    let before = world.events.pop();
    assert_eq!(classify(&before, true), RunState::Live);
    assert_eq!(classify(&before, false), RunState::Aborted);
}

#[test]
fn the_log_of_a_run_ends_with_how_it_finished() {
    let ran = run(&test_config(2, 1), &mini_arc);
    ended_as(ran.world, RunFinishReason::CleanFinish, 0);

    let mut config = test_config(2, 1);
    config.max_ticks = Some(1);
    let ran = run(&config, &mini_arc);
    ended_as(ran.world, RunFinishReason::CapHit(CapKind::MaxTicks), 2);

    let mut config = test_config(2, 1);
    config.max_llm_calls = Some(3);
    let ran = run(&config, &mini_arc);
    ended_as(ran.world, RunFinishReason::CapHit(CapKind::MaxLlmCalls), 2);

    // What comes after the ending adds nothing.
    let mut failed = start_run(&test_config(1, 0), 0, EPOCH);
    completion_failed(&mut failed, &AgentId::orchestrator(), Role::Orchestrator, "down");
    let length = failed.events.len();
    duration_elapsed(&mut failed, 20_500);
    no_choices(&mut failed, &AgentId::orchestrator(), Role::Orchestrator);
    assert!(matches!(schedule_step(&mut failed, None), ScheduleStep::Stop));
    assert_eq!(failed.events.len(), length);
    ended_as(failed, RunFinishReason::HarnessError, 1);
}

#[test]
fn completions_stop_at_their_limit() {
    let mut config = test_config(1, 0);
    config.max_llm_calls = Some(3);
    let ran = run(&config, &mini_arc);
    assert_eq!(ran.exit_code, 2);
    assert_eq!(ran.world.llm_calls, 3);
    assert!(ran
        .report
        .starts_with("terminated: MaxLlmCalls cap before finish_run\n"));
}

#[test]
fn finishing_runs_plan_nothing_and_stop_when_turns_are_over() {
    let config = test_config(2, 0);
    let mut world = start_run(&config, 0, EPOCH);
    let plans = plan_dispatches(&mut world);
    assert_eq!(plans.len(), 1, "only the orchestrator's first turn is due");
    assert_eq!(world.turns_in_flight, 1);
    duration_elapsed(&mut world, 1_000);
    assert!(plan_dispatches(&mut world).is_empty());
    assert!(matches!(
        schedule_step(&mut world, None),
        ScheduleStep::Run(ref none) if none.is_empty()
    ));
    end_turn_bookkeeping(&mut world, &AgentId::orchestrator(), Role::Orchestrator);
    assert!(matches!(schedule_step(&mut world, None), ScheduleStep::Stop));
    assert_eq!(watchdog_step(&mut world), WatchStep::Stop);
}

#[test]
fn lowered_parallelism_withdraws_permits_as_they_come_back() {
    let (mut world, registry) = dispatch_world(2);
    let meta = AgentId::meta(1);
    world.metas.push(ControlSlot::new(meta, 7));
    world.permits = 0;
    world.team[0].in_flight = true;
    world.team[1].in_flight = true;
    let lowered = call(
        &registry,
        Role::MetaAgent,
        &meta,
        "set_parallelism",
        "{\"target\": 1}",
        &mut world,
    );
    assert!(accepted(&lowered));
    assert_eq!((world.permits, world.permit_debt), (0, 1));
    return_permit(&mut world);
    world.team[0].in_flight = false;
    plan_dispatches(&mut world);
    assert_eq!((world.permits, world.permit_debt), (0, 0));
}

#[test]
fn outside_replies_decide_what_is_learned() {
    let (mut world, registry) = dispatch_world(1);
    let agent = AgentId::team(1);
    let down = || KnowledgeError::Embed(EmbedError::Backend("down".to_string()));
    let note = decode("write_knowledge", "{\"text\": \"n\"}");
    assert_eq!(
        registry.embedding_wanted(Role::TeamAgent, &agent, "write_knowledge", &note, &world),
        Some("n".to_string())
    );
    let failed = registry.dispatch(
        Role::TeamAgent,
        &agent,
        "write_knowledge",
        note,
        Replies {
            embedded: Some(down()),
            hits: Ok(vec![]),
        },
        &mut world,
    );
    assert!(rejected_with(&failed, "internal_error"));
    assert_eq!(world.store.entry_count(), 0);

    let query = decode("search_knowledge", "{\"query\": \"q\"}");
    assert_eq!(
        registry.search_wanted(Role::TeamAgent, "search_knowledge", &query),
        Some(("q".to_string(), 3))
    );
    let hit = ScoredEntry {
        entry: KnowledgeEntry {
            id: openteam::ids::KnowledgeEntryId::new(1),
            text: "t".to_string(),
            author: agent,
            source_event: openteam::ids::EventId::new(4),
            kind: KnowledgeKind::Note,
        },
        score: "0.50".to_string(),
        rounded: "0.5".to_string(),
    };
    let found = registry.dispatch(
        Role::TeamAgent,
        &agent,
        "search_knowledge",
        query,
        Replies {
            embedded: None,
            hits: Ok(vec![hit]),
        },
        &mut world,
    );
    assert!(accepted(&found));
    assert!(found.to_content().contains("\"t\""));
}

#[test]
fn refused_calls_leave_the_world_alone() {
    let (mut world, registry) = dispatch_world(1);
    let before = world.events.len();
    for (name, arguments) in [
        ("claim_task", "{\"task\": 9}"),
        ("complete_task", "{\"result\": \"x\"}"),
        ("release_task", "{}"),
        ("post_message", "{\"body\": \"x\"}"),
    ] {
        let outcome = call(
            &registry,
            Role::TeamAgent,
            &AgentId::team(1),
            name,
            arguments,
            &mut world,
        );
        assert!(matches!(outcome, ToolOutcome::Rejected { .. }), "{name}");
    }
    assert_eq!(world.events.len(), before);
    assert!(world.can_log(1, 0, 0) && world.can_step(2, 10, 10));
    assert!(!world.can_log(1, u64::MAX, u64::MAX - 0) || world.metrics.can_count(1, 0, 0));
}

#[test]
fn counters_agree_with_the_world() {
    for seed in 0..4 {
        let mut config = test_config(3, 1);
        config.seed = seed;
        config.max_ticks = Some(400);
        let ran = run(&config, &|id, req| BuiltinArc::new().chat(req, id));
        let world = &ran.world;
        let counts = world.metrics.summary().counts;
        let tasks = world.board.tasks();
        let in_state = |wanted: fn(&TaskState) -> bool| {
            tasks.iter().filter(|t| wanted(&t.state)).count() as u64
        };
        assert_eq!(counts.ticks, world.ticks);
        assert_eq!(counts.tasks_created, tasks.len() as u64);
        assert_eq!(
            counts.tasks_completed,
            in_state(|s| matches!(s, TaskState::Done { .. }))
        );
        assert_eq!(
            counts.tasks_cancelled,
            in_state(|s| matches!(s, TaskState::Cancelled { .. }))
        );
        assert_eq!(counts.messages_total, world.messages.len() as u64);
        assert_eq!(
            counts.knowledge_messages + counts.knowledge_notes + counts.knowledge_completions,
            world.store.entry_count() as u64
        );
        assert_eq!(counts.knowledge_bytes, world.store.byte_size() as u64);
        assert_eq!(counts.directives_issued, world.directives.len() as u64);
    }
}

#[test]
fn respecializing_keeps_the_numbering() {
    let config = test_config(2, 0);
    let registry = registry();
    let mut world = start_run(&config, 0, EPOCH);
    let agent = AgentId::team(1);
    let p = TurnProgress::new(agent, Role::TeamAgent, 1, 0, None);
    assert_eq!(ask(&mut world, &p, None).unwrap().call_seq, 0);
    let outcome = call(
        &registry,
        Role::Orchestrator,
        &AgentId::orchestrator(),
        "respecialize",
        "{\"agent\": \"agent-1\", \"specialty\": {\"name\": \"editor\", \"description\": \"d\", \"focus\": \"f\"}}",
        &mut world,
    );
    assert!(accepted(&outcome));
    let id = ask(&mut world, &p, None).unwrap();
    assert_eq!((id.user.as_str(), id.call_seq), ("team-agent:agent-1:editor", 1));
}

#[test]
fn a_nudge_forces_one_turn_of_the_orchestrator() {
    let config = test_config(1, 0);
    let registry = registry();
    let mut world = start_run(&config, 0, EPOCH);
    let lead = AgentId::orchestrator();
    let title = "{\"title\": \"A\", \"description\": \"d\"}";
    let made = call(&registry, Role::Orchestrator, &lead, "create_task", title, &mut world);
    assert!(accepted(&made));
    let slept = call(&registry, Role::TeamAgent, &AgentId::team(1), "sleep", "{}", &mut world);
    assert!(accepted(&slept));
    world.first_tick_fired = true;
    world.orchestrator.watermark = world.events.len();
    assert_eq!(watchdog_step(&mut world), WatchStep::Force);
    assert_eq!(world.team[0].state, AgentState::Asleep);
    let plans = plan_dispatches(&mut world);
    assert_eq!(plans.len(), 1);
    assert_eq!(plans[0].agent, lead);
    assert!(!world.forced_tick);
    assert!(plan_dispatches(&mut world).is_empty());
}

#[test]
fn completing_turns_are_logged_on_their_task() {
    let ran = run(&test_config(2, 1), &mini_arc);
    let events = &ran.world.events;
    let mut seen = 0;
    for (i, event) in events.iter().enumerate() {
        let EventKind::TaskCompleted { task, .. } = &event.kind else {
            continue;
        };
        let turn = events[i..]
            .iter()
            .find(|e| {
                e.source == event.source && matches!(e.kind, EventKind::TurnCompleted { .. })
            })
            .unwrap();
        assert!(
            matches!(&turn.kind, EventKind::TurnCompleted { on_task, .. } if *on_task == Some(*task))
        );
        seen += 1;
    }
    assert_eq!(seen, 2);
    for event in events {
        if let EventKind::TurnCompleted { on_task, .. } = &event.kind {
            let team = matches!(event.source, EventSource::Agent(AgentId::Team(_)));
            assert!(team || on_task.is_none());
        }
    }
}

#[test]
fn planned_turns_come_in_order() {
    let config = test_config(3, 2);
    let registry = registry();
    let mut world = start_run(&config, 0, EPOCH);
    let lead = AgentId::orchestrator();
    let body = "{\"broadcast\": true, \"body\": \"go\"}";
    for _ in 0..6 {
        let sent = call(&registry, Role::Orchestrator, &lead, "post_message", body, &mut world);
        assert!(accepted(&sent));
    }
    let agents: Vec<String> = plan_dispatches(&mut world)
        .iter()
        .map(|p| p.agent.as_str())
        .collect();
    assert_eq!(
        agents,
        vec!["orchestrator", "meta-1", "meta-2", "agent-1", "agent-2", "agent-3"]
    );
    assert_eq!(world.turns_in_flight, 6);
    assert!(plan_dispatches(&mut world).is_empty());
}

#[test]
fn knowledge_mirrors_its_events() {
    let ran = run(&test_config(2, 1), &mini_arc);
    let world = &ran.world;
    assert!(world.store.entry_count() > 0);
    for entry in world.store.entries() {
        let event = &world.events[entry.source_event.get() as usize];
        assert_eq!(event.source, EventSource::Agent(entry.author));
        let (id, text) = match &event.kind {
            EventKind::MessageSent {
                knowledge_ref, body, ..
            } => (knowledge_ref, body),
            EventKind::TaskCompleted {
                result_ref, result, ..
            } => (result_ref, result),
            EventKind::KnowledgeWritten { entry, text } => (entry, text),
            other => panic!("{other:?} is no source of knowledge"),
        };
        assert_eq!((*id, text), (entry.id, &entry.text));
    }
}

#[test]
fn counters_that_are_full_leave_no_room() {
    let fresh = || start_run(&test_config(2, 1), 0, EPOCH);
    assert!(has_room(&fresh(), 4, 1000, 1000));
    let mut world = fresh();
    world.ticks = u64::MAX;
    assert!(!has_room(&world, 0, 0, 0));
    let mut world = fresh();
    world.metas[0].turn_index = u64::MAX;
    assert!(!has_room(&world, 0, 0, 0));
    let mut world = fresh();
    world.team[1].consecutive_malformed = u32::MAX;
    assert!(!has_room(&world, 0, 0, 0));
    let mut world = fresh();
    world.turns_in_flight = usize::MAX;
    assert!(!has_room(&world, 0, 0, 0));
}
