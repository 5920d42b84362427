use openteam::agent::{AgentId, SpecialtySlug};
use openteam::board::{Board, Task, TaskState};
use openteam::directive::{DirectiveKind, DirectiveTier};
use openteam::event::{
    Event, EventKind, EventSource, RestoredState, RunCaps, RunFinishReason, Timestamp, TurnOutcome,
    TurnUsage,
};
use openteam::ids::{
    parse_run_id, run_id_text, DirectiveId, EventId, KnowledgeEntryId, MessageId, TaskId, TeamId,
};
use openteam::json::{quote, Json};
use openteam::message::Address;
use openteam::metrics::{fmt_tokens, Metrics};
use openteam::serve::discovery::{
    add_run, classify, confirm_run, event_id, finished_block, last_event, list_entry,
    read_event_lines, run_dir_name, run_header, DiscoveredRun, RunHeader, RunState,
};
use openteam::serve::fold::{
    board_snapshot, fold_events, run_block, snapshot, AgentEntry, AgentWireState,
};
use openteam::serve::tail::split_complete_lines;
use serde_json::Value;

const TRANSCRIPT_JSONL: &str = r#"{"id":0,"at":"2026-07-17T00:00:00Z","source":"system","kind":"run_started","data":{"run_id":"0192f1a0-7e3c-7abc-9def-000000000000","seed":42,"goal":"Write a short onboarding guide for new contributors","agents":3,"meta_agents":1,"parallel":3,"scenario":null,"caps":{}}}
{"id":1,"at":"2026-07-17T00:00:00Z","source":"orchestrator","kind":"team_formed","data":{"team":"t1","members":["agent-1","agent-2","agent-3"]}}
{"id":2,"at":"2026-07-17T00:00:00Z","source":"orchestrator","kind":"task_created","data":{"task":1,"title":"Draft the setup section","description":"Install + build/test steps for a new contributor.","team":"t1"}}
{"id":3,"at":"2026-07-17T00:00:00Z","source":"orchestrator","kind":"task_created","data":{"task":2,"title":"Draft the architecture overview","description":"One-paragraph crate map.","team":"t1"}}
{"id":4,"at":"2026-07-17T00:00:00Z","source":"orchestrator","kind":"turn_completed","data":{"first_call_seq":0,"last_call_seq":1,"tool_iters":1,"outcome":"Yielded","malformed":false,"usage":{"prompt":1301,"completion":94,"total":1395},"on_task":null}}
{"id":5,"at":"2026-07-17T00:00:00Z","source":"agent-1","kind":"task_claimed","data":{"task":1,"team":"t1"}}
{"id":6,"at":"2026-07-17T00:00:00Z","source":"agent-1","kind":"turn_completed","data":{"first_call_seq":0,"last_call_seq":1,"tool_iters":1,"outcome":"Yielded","malformed":false,"usage":{"prompt":812,"completion":24,"total":836},"on_task":1}}
{"id":7,"at":"2026-07-17T00:00:00Z","source":"agent-3","kind":"turn_completed","data":{"first_call_seq":0,"last_call_seq":1,"tool_iters":1,"outcome":"Yielded","malformed":false,"usage":{"prompt":872,"completion":26,"total":898},"on_task":null}}
{"id":8,"at":"2026-07-17T00:00:00Z","source":"agent-2","kind":"task_claimed","data":{"task":2,"team":"t1"}}
{"id":9,"at":"2026-07-17T00:00:00Z","source":"agent-2","kind":"turn_completed","data":{"first_call_seq":0,"last_call_seq":1,"tool_iters":1,"outcome":"Yielded","malformed":false,"usage":{"prompt":815,"completion":24,"total":839},"on_task":2}}
{"id":10,"at":"2026-07-17T00:00:00Z","source":"orchestrator","kind":"message_sent","data":{"message":1,"address":{"Direct":{"to":"agent-1"}},"body":"Prioritize the setup section; the guide leads with it.","knowledge_ref":1}}
{"id":11,"at":"2026-07-17T00:00:00Z","source":"orchestrator","kind":"turn_completed","data":{"first_call_seq":2,"last_call_seq":3,"tool_iters":1,"outcome":"Yielded","malformed":false,"usage":{"prompt":1180,"completion":40,"total":1220},"on_task":null}}
{"id":12,"at":"2026-07-17T00:00:00Z","source":"agent-1","kind":"messages_delivered","data":{"delivered":[1]}}
{"id":13,"at":"2026-07-17T00:00:00Z","source":"agent-1","kind":"knowledge_written","data":{"entry":2,"text":"Setup: install mise; then `mise run build` / `test`. Rust 1.94 via mise."}}
{"id":14,"at":"2026-07-17T00:00:00Z","source":"agent-1","kind":"turn_completed","data":{"first_call_seq":2,"last_call_seq":3,"tool_iters":1,"outcome":"Yielded","malformed":false,"usage":{"prompt":905,"completion":38,"total":943},"on_task":1}}
{"id":15,"at":"2026-07-17T00:00:00Z","source":"agent-2","kind":"turn_completed","data":{"first_call_seq":2,"last_call_seq":3,"tool_iters":1,"outcome":"Yielded","malformed":false,"usage":{"prompt":898,"completion":33,"total":931},"on_task":2}}
{"id":16,"at":"2026-07-17T00:00:00Z","source":"meta-1","kind":"directive_issued","data":{"directive":1,"tier":"Judgment","kind":"propose_respecialize","args":{"agent":"agent-3","specialty":"doc-curator"}}}
{"id":17,"at":"2026-07-17T00:00:00Z","source":"meta-1","kind":"turn_completed","data":{"first_call_seq":0,"last_call_seq":1,"tool_iters":1,"outcome":"Yielded","malformed":false,"usage":{"prompt":1128,"completion":36,"total":1164},"on_task":null}}
{"id":18,"at":"2026-07-17T00:00:00Z","source":"agent-2","kind":"task_completed","data":{"task":2,"result":"Architecture overview: openteam (bin) → core + mock + leaf wire; mock depends on wire only.","result_ref":3}}
{"id":19,"at":"2026-07-17T00:00:00Z","source":"agent-2","kind":"turn_completed","data":{"first_call_seq":4,"last_call_seq":5,"tool_iters":1,"outcome":"Yielded","malformed":false,"usage":{"prompt":902,"completion":41,"total":943},"on_task":2}}
{"id":20,"at":"2026-07-17T00:00:00Z","source":"orchestrator","kind":"agent_respecialized","data":{"agent":"agent-3","from":"generalist","to":"doc-curator","via_directive":1}}
{"id":21,"at":"2026-07-17T00:00:00Z","source":"orchestrator","kind":"directive_fulfilled","data":{"directive":1,"by":"orchestrator"}}
{"id":22,"at":"2026-07-17T00:00:00Z","source":"orchestrator","kind":"message_sent","data":{"message":2,"address":"Broadcast","body":"Team: once setup lands, the guide is complete — no further tasks planned.","knowledge_ref":4}}
{"id":23,"at":"2026-07-17T00:00:00Z","source":"orchestrator","kind":"turn_completed","data":{"first_call_seq":4,"last_call_seq":5,"tool_iters":1,"outcome":"Yielded","malformed":false,"usage":{"prompt":1495,"completion":72,"total":1567},"on_task":null}}
{"id":24,"at":"2026-07-17T00:00:00Z","source":"meta-1","kind":"directive_issued","data":{"directive":2,"tier":"Mechanical","kind":"set_parallelism","args":{"target":2}}}
{"id":25,"at":"2026-07-17T00:00:00Z","source":"meta-1","kind":"parallelism_changed","data":{"requested":2,"effective":2,"via_directive":2}}
{"id":26,"at":"2026-07-17T00:00:00Z","source":"meta-1","kind":"turn_completed","data":{"first_call_seq":2,"last_call_seq":3,"tool_iters":1,"outcome":"Yielded","malformed":false,"usage":{"prompt":588,"completion":15,"total":603},"on_task":null}}
{"id":27,"at":"2026-07-17T00:00:00Z","source":"agent-1","kind":"messages_delivered","data":{"delivered":[2]}}
{"id":28,"at":"2026-07-17T00:00:00Z","source":"agent-1","kind":"message_sent","data":{"message":3,"address":{"Team":{"team":"t1"}},"body":"Setup section drafted; see knowledge notes.","knowledge_ref":5}}
{"id":29,"at":"2026-07-17T00:00:00Z","source":"agent-1","kind":"turn_completed","data":{"first_call_seq":4,"last_call_seq":5,"tool_iters":1,"outcome":"Yielded","malformed":false,"usage":{"prompt":940,"completion":37,"total":977},"on_task":1}}
{"id":30,"at":"2026-07-17T00:00:00Z","source":"agent-1","kind":"task_completed","data":{"task":1,"result":"Setup section: install mise; `mise run build/test/lint/fmt`; Rust 1.94 via mise.","result_ref":6}}
{"id":31,"at":"2026-07-17T00:00:00Z","source":"agent-1","kind":"turn_completed","data":{"first_call_seq":6,"last_call_seq":7,"tool_iters":1,"outcome":"Yielded","malformed":false,"usage":{"prompt":951,"completion":44,"total":995},"on_task":1}}
{"id":32,"at":"2026-07-17T00:00:00Z","source":"orchestrator","kind":"turn_completed","data":{"first_call_seq":6,"last_call_seq":6,"tool_iters":1,"outcome":"Yielded","malformed":false,"usage":{"prompt":1210,"completion":180,"total":1390},"on_task":null}}
{"id":33,"at":"2026-07-17T00:00:00Z","source":"orchestrator","kind":"run_finished","data":{"reason":"CleanFinish","exit_code":0}}"#;

// ---------------------------------------------------------------------------
// Log lines as events.
// ---------------------------------------------------------------------------

fn whole(v: &Value) -> u64 {
    v.as_u64().unwrap()
}

fn text(v: &Value) -> String {
    v.as_str().unwrap().to_string()
}

fn opt_text(v: &Value) -> Option<String> {
    v.as_str().map(str::to_string)
}

fn agent(v: &Value) -> AgentId {
    AgentId::parse(v.as_str().unwrap()).unwrap()
}

fn agents(v: &Value) -> Vec<AgentId> {
    v.as_array().unwrap().iter().map(agent).collect()
}

fn team(v: &Value) -> Option<TeamId> {
    v.as_str().map(|tag| TeamId::parse(tag).unwrap())
}

fn slug(v: &Value) -> SpecialtySlug {
    SpecialtySlug::parse(v.as_str().unwrap()).unwrap()
}

fn via(v: &Value) -> Option<DirectiveId> {
    v.as_u64().map(DirectiveId::new)
}

fn stamp(v: &Value) -> Timestamp {
    let at: jiff::Timestamp = v.as_str().unwrap().parse().unwrap();
    Timestamp {
        millis: at.as_millisecond(),
        nanos: 0,
    }
}

fn kind(name: &str, d: &Value) -> EventKind {
    match name {
        "run_started" => EventKind::RunStarted {
            run_id: parse_run_id(d["run_id"].as_str().unwrap()).unwrap(),
            seed: whole(&d["seed"]),
            goal: text(&d["goal"]),
            agents: whole(&d["agents"]) as u32,
            meta_agents: whole(&d["meta_agents"]) as u32,
            parallel: whole(&d["parallel"]) as u32,
            scenario: opt_text(&d["scenario"]),
            caps: RunCaps {
                max_ticks: d["caps"]["max_ticks"].as_u64(),
                max_llm_calls: d["caps"]["max_llm_calls"].as_u64(),
                max_duration_ms: d["caps"]["max_duration_ms"].as_u64(),
            },
        },
        "run_finished" => EventKind::RunFinished {
            reason: match d["reason"].as_str() {
                Some("CleanFinish") => RunFinishReason::CleanFinish,
                _ => RunFinishReason::HarnessError,
            },
            exit_code: whole(&d["exit_code"]) as u8,
        },
        "task_created" => EventKind::TaskCreated {
            task: TaskId::new(whole(&d["task"])),
            title: text(&d["title"]),
            description: text(&d["description"]),
            team: team(&d["team"]),
        },
        "task_claimed" => EventKind::TaskClaimed {
            task: TaskId::new(whole(&d["task"])),
            team: team(&d["team"]),
        },
        "task_completed" => EventKind::TaskCompleted {
            task: TaskId::new(whole(&d["task"])),
            result: text(&d["result"]),
            result_ref: KnowledgeEntryId::new(whole(&d["result_ref"])),
        },
        "message_sent" => EventKind::MessageSent {
            message: MessageId::new(whole(&d["message"])),
            address: if d["address"] == "Broadcast" {
                Address::Broadcast
            } else if let Some(t) = team(&d["address"]["Team"]["team"]) {
                Address::Team { team: t }
            } else {
                Address::Direct {
                    to: agent(&d["address"]["Direct"]["to"]),
                }
            },
            body: text(&d["body"]),
            knowledge_ref: KnowledgeEntryId::new(whole(&d["knowledge_ref"])),
        },
        "messages_delivered" => EventKind::MessagesDelivered {
            delivered: d["delivered"]
                .as_array()
                .unwrap()
                .iter()
                .map(|n| MessageId::new(whole(n)))
                .collect(),
        },
        "knowledge_written" => EventKind::KnowledgeWritten {
            entry: KnowledgeEntryId::new(whole(&d["entry"])),
            text: text(&d["text"]),
        },
        "turn_completed" => EventKind::TurnCompleted {
            first_call_seq: whole(&d["first_call_seq"]),
            last_call_seq: whole(&d["last_call_seq"]),
            tool_iters: whole(&d["tool_iters"]) as u32,
            outcome: match d["outcome"].as_str() {
                Some("Yielded") => TurnOutcome::Yielded,
                _ => TurnOutcome::ToolIterCap,
            },
            malformed: d["malformed"].as_bool().unwrap(),
            usage: TurnUsage {
                prompt: whole(&d["usage"]["prompt"]),
                completion: whole(&d["usage"]["completion"]),
                total: whole(&d["usage"]["total"]),
            },
            on_task: d["on_task"].as_u64().map(TaskId::new),
        },
        "agent_slept" => EventKind::AgentSlept {
            agent: agent(&d["agent"]),
            via_directive: via(&d["via_directive"]),
        },
        "agent_parked" => EventKind::AgentParked {
            agent: agent(&d["agent"]),
            count: whole(&d["count"]) as u32,
        },
        "agent_woke" => EventKind::AgentWoke {
            agent: agent(&d["agent"]),
            restored: match d["restored"]["Working"]["task"].as_u64() {
                Some(task) => RestoredState::Working {
                    task: TaskId::new(task),
                },
                None => RestoredState::Idle,
            },
            via_directive: via(&d["via_directive"]),
        },
        "parallelism_changed" => EventKind::ParallelismChanged {
            requested: whole(&d["requested"]) as u32,
            effective: whole(&d["effective"]) as u32,
            via_directive: DirectiveId::new(whole(&d["via_directive"])),
        },
        "team_formed" => EventKind::TeamFormed {
            team: team(&d["team"]).unwrap(),
            members: agents(&d["members"]),
        },
        "agent_respecialized" => EventKind::AgentRespecialized {
            agent: agent(&d["agent"]),
            from: slug(&d["from"]),
            to: slug(&d["to"]),
            via_directive: via(&d["via_directive"]),
        },
        "directive_issued" => EventKind::DirectiveIssued {
            directive: DirectiveId::new(whole(&d["directive"])),
            tier: match d["tier"].as_str() {
                Some("Judgment") => DirectiveTier::Judgment,
                _ => DirectiveTier::Mechanical,
            },
            kind: match d["kind"].as_str() {
                Some("propose_respecialize") => DirectiveKind::ProposeRespecialize,
                _ => DirectiveKind::SetParallelism,
            },
            args: Json::parse(d["args"].to_string().as_str()).unwrap(),
        },
        "directive_fulfilled" => EventKind::DirectiveFulfilled {
            directive: DirectiveId::new(whole(&d["directive"])),
            by: agent(&d["by"]),
        },
        other => panic!("no such kind here: {other}"),
    }
}

fn try_event(line: &str) -> Option<Event> {
    let v: Value = serde_json::from_str(line).ok()?;
    let name = v["kind"].as_str()?;
    Some(Event::new(
        EventId::new(whole(&v["id"])),
        stamp(&v["at"]),
        EventSource::parse(v["source"].as_str()?)?,
        kind(name, &v["data"]),
    ))
}

fn parse_events(jsonl: &str) -> Vec<Event> {
    jsonl.lines().map(|line| try_event(line).unwrap()).collect()
}

fn folded_transcript() -> Metrics {
    let mut metrics = Metrics::new();
    for event in parse_events(TRANSCRIPT_JSONL) {
        assert!(metrics.has_room(&event));
        metrics.fold(&event);
    }
    metrics
}

#[test]
fn folding_the_transcript_yields_the_pinned_counts() {
    let metrics = folded_transcript();
    let summary = metrics.summary();

    assert_eq!(summary.counts.tasks_created, 2);
    assert_eq!(summary.counts.tasks_completed, 2);
    assert_eq!(summary.counts.tasks_cancelled, 0);

    assert_eq!(summary.counts.messages_total, 3);
    assert_eq!(summary.counts.messages_direct, 1);
    assert_eq!(summary.counts.messages_team, 1);
    assert_eq!(summary.counts.messages_broadcast, 1);

    assert_eq!(summary.knowledge_entries, 6);
    assert_eq!(summary.counts.knowledge_messages, 3);
    assert_eq!(summary.counts.knowledge_notes, 1, "one knowledge_written Note");
    assert_eq!(summary.counts.knowledge_completions, 2);

    assert_eq!(summary.counts.directives_issued, 2);
    assert_eq!(summary.counts.directives_fulfilled, 2);
    assert_eq!(summary.counts.directives_declined, 0);

    assert_eq!(summary.counts.parks, 0);
    assert_eq!(summary.counts.sleeps, 0);
    assert_eq!(summary.counts.wakes, 0);
    assert_eq!(summary.counts.liveness_nudges, 0);

    assert_eq!(summary.respecializations.len(), 1);
    assert_eq!(summary.respecializations[0].0, AgentId::team(3));
    assert_eq!(summary.respecializations[0].1.as_str(), "generalist");
    assert_eq!(summary.respecializations[0].2.as_str(), "doc-curator");

    assert_eq!(summary.counts.ticks, 4, "a tick is an orchestrator turn_completed");

    assert_eq!(summary.outcome, Some((RunFinishReason::CleanFinish, 0)));
    assert_eq!(summary.initial_parallelism, 3);
    assert_eq!(summary.parallelism_changes, vec![2]);
}

#[test]
fn final_utilization_is_all_idle_with_agent_3_respecialized() {
    let metrics = folded_transcript();
    let (working, idle, asleep) = metrics.state_counts();
    assert_eq!((working, idle, asleep), (0, 3, 0));

    let digest = metrics.digest();
    assert!(digest.contains("- agent-1: Idle, generalist"), "{digest}");
    assert!(digest.contains("- agent-2: Idle, generalist"), "{digest}");
    assert!(digest.contains("- agent-3: Idle, doc-curator"), "{digest}");
}

#[test]
fn the_three_projections_render() {
    let metrics = folded_transcript();

    assert_eq!(
        metrics.run_health_line(),
        "run-health: done 2/2 · agents 0W/3I/0S · mailbox depth 2 (max 2) · ticks-since-done 1"
    );

    let digest = metrics.digest();
    assert!(
        digest
            .starts_with("throughput: 2 task_completed / 33 EventIds · latency: work median "),
        "{digest}"
    );
    assert!(digest.contains("\nutilization:\n"), "{digest}");
    // msg 2 (broadcast) is still pending on agent-2/agent-3 since event 22.
    assert!(
        digest.contains("mailbox: depth 2, max 2, oldest-pending-age 11"),
        "{digest}"
    );
    assert!(
        digest.contains("faults: parks 0, malformed[a1:0 a2:0 a3:0]"),
        "{digest}"
    );
    assert!(
        digest.contains("directives: issued 2/ful 2/dec 0"),
        "{digest}"
    );

    let rendered = metrics.summary().render();
    assert!(rendered.starts_with("## Run summary\n"), "{rendered}");
    assert!(
        rendered.contains("- Outcome: CleanFinish (exit 0)"),
        "{rendered}"
    );
    assert!(rendered.contains("· 4 ticks"), "{rendered}");
    assert!(
        rendered
            .contains("- Agents: 3 team + 1 meta · specialties used: generalist, doc-curator"),
        "{rendered}"
    );
    assert!(
        rendered.contains("- Tasks: created 2 · completed 2 · cancelled 0"),
        "{rendered}"
    );
    assert!(
        rendered.contains("- Messages: 3 (direct 1, team 1, broadcast 1)"),
        "{rendered}"
    );
    assert!(
        rendered.contains("- Knowledge: 6 entries (Message 3, Note 1, TaskCompletion 2)"),
        "{rendered}"
    );
    assert!(
        rendered.contains("- Sleeps 0 · Wakes 0 · Parks 0"),
        "{rendered}"
    );
    assert!(
        rendered.contains("- Respecializations: 1 (agent-3: generalist → doc-curator)"),
        "{rendered}"
    );
    assert!(
        rendered.contains("- Effective parallelism: 3 → 2 (meta set_parallelism)"),
        "{rendered}"
    );
    assert!(
        rendered.contains("- Meta interventions: issued 2 · fulfilled 2 · declined 0"),
        "{rendered}"
    );
    assert!(rendered.contains("- Liveness nudges: 0"), "{rendered}");
    let tokens_line = rendered
        .lines()
        .find(|l| l.starts_with("- Tokens: "))
        .unwrap();
    assert_eq!(
        tokens_line,
        "- Tokens: 14.7k total — orchestrator 5.6k, agent-1 3.8k, agent-2 2.7k, agent-3 898, meta-1 1.8k"
    );
}

#[test]
fn work_latency_median_is_in_event_id_deltas() {
    let metrics = folded_transcript();
    // task 2: claimed @8, completed @18 → 10; task 1: claimed @5,
    // completed @30 → 25; even count → midpoint 17.
    assert_eq!(metrics.work_latency_median(), Some(17));
}

#[test]
fn token_formatting_matches_the_pinned_shapes() {
    assert_eq!(fmt_tokens(950), "950");
    assert_eq!(fmt_tokens(1000), "1.0k");
    assert_eq!(fmt_tokens(2600), "2.6k");
    assert_eq!(fmt_tokens(16549), "16.5k");
}

#[test]
fn meta_agents_zero_renders_the_block_minus_the_meta_line() {
    let mut summary = folded_transcript().summary();
    summary.meta_agents = 0;
    let rendered = summary.render();
    assert!(!rendered.contains("- Meta interventions:"), "{rendered}");
    assert!(rendered.contains("- Liveness nudges: 0"), "{rendered}");
}
fn agent_state(entries: &[AgentEntry], handle: &str) -> AgentWireState {
    entries
        .iter()
        .find(|e| e.handle.as_str() == handle)
        .unwrap_or_else(|| panic!("agent {handle} missing"))
        .state
}

const RUN_ID: &str = "0192f1a0-7e3c-7abc-9def-000000000000";

/// A small but complete finished run: form a team, create + claim +
/// complete a task, respecialize the now-idle claimant, then finish.
fn finished_log() -> String {
    [
        r#"{"id":0,"at":"2026-07-17T00:00:00Z","source":"system","kind":"run_started","data":{"run_id":"0192f1a0-7e3c-7abc-9def-000000000000","seed":42,"goal":"g","agents":2,"meta_agents":0,"parallel":2,"scenario":null,"caps":{}}}"#,
        r#"{"id":1,"at":"2026-07-17T00:00:00Z","source":"orchestrator","kind":"team_formed","data":{"team":"t1","members":["agent-1","agent-2"]}}"#,
        r#"{"id":2,"at":"2026-07-17T00:00:00Z","source":"orchestrator","kind":"task_created","data":{"task":1,"title":"Setup","description":"d","team":"t1"}}"#,
        r#"{"id":3,"at":"2026-07-17T00:00:00Z","source":"agent-1","kind":"task_claimed","data":{"task":1,"team":"t1"}}"#,
        r#"{"id":4,"at":"2026-07-17T00:00:00Z","source":"agent-1","kind":"task_completed","data":{"task":1,"result":"done1","result_ref":1}}"#,
        r#"{"id":5,"at":"2026-07-17T00:00:00Z","source":"orchestrator","kind":"agent_respecialized","data":{"agent":"agent-1","from":"generalist","to":"curator"}}"#,
        r#"{"id":6,"at":"2026-07-17T00:00:00Z","source":"orchestrator","kind":"run_finished","data":{"reason":"CleanFinish","exit_code":0}}"#,
    ]
    .join("\n")
}

#[test]
fn folded_board_equals_the_directly_built_board_json() {
    let events = parse_events(&finished_log());
    let folded_board =
        board_snapshot(parse_run_id(RUN_ID).unwrap(), "g", 42, &events).unwrap();

    let mut expected = Board::new();
    expected
        .form_team(
            TeamId::parse("t1").unwrap(),
            vec![AgentId::team(1), AgentId::team(2)],
        )
        .unwrap();
    expected
        .create_task(
            TaskId::new(1),
            "Setup".to_string(),
            "d".to_string(),
            AgentId::orchestrator(),
            EventId::new(2),
            Some(TeamId::parse("t1").unwrap()),
        )
        .unwrap();
    expected.claim(&AgentId::team(1), TaskId::new(1)).unwrap();
    expected
        .complete(
            &AgentId::team(1),
            "done1".to_string(),
            KnowledgeEntryId::new(1),
        )
        .unwrap();

    assert_eq!(run_id_text(folded_board.run_id), RUN_ID);
    assert_eq!(folded_board.goal, "g");
    assert_eq!(folded_board.seed, 42);
    assert_eq!(folded_board.board.tasks(), expected.tasks());
    assert_eq!(folded_board.board.teams(), expected.teams());
}

/// The finished run folds to all-Idle agents with agent-1 respecialized,
/// and `as_of` = the last event id.
#[test]
fn folding_a_finished_run_yields_four_state_agents_and_as_of() {
    let events = parse_events(&finished_log());
    let folded = fold_events(&events).unwrap();
    let entries = folded.agents.into_entries();

    assert_eq!(folded.as_of, 6, "as_of is the last event id");
    assert_eq!(entries.len(), 2);
    assert_eq!(agent_state(&entries, "agent-1"), AgentWireState::Idle);
    assert_eq!(agent_state(&entries, "agent-2"), AgentWireState::Idle);
    assert_eq!(
        entries
            .iter()
            .find(|e| e.handle.as_str() == "agent-1")
            .unwrap()
            .specialty
            .as_str(),
        "curator"
    );
}

/// The full four-state transition table, including park and woke-restores.
#[test]
fn four_state_transitions_cover_working_asleep_parked_and_woke() {
    // run_started(2 agents) → claim → slept → park → woke(restored Idle).
    let jsonl = r#"{"id":0,"at":"2026-07-17T00:00:00Z","source":"system","kind":"run_started","data":{"run_id":"0192f1a0-7e3c-7abc-9def-000000000000","seed":1,"goal":"g","agents":2,"meta_agents":0,"parallel":2,"scenario":null,"caps":{}}}
{"id":1,"at":"2026-07-17T00:00:00Z","source":"orchestrator","kind":"task_created","data":{"task":1,"title":"t","description":"d","team":null}}
{"id":2,"at":"2026-07-17T00:00:00Z","source":"agent-1","kind":"task_claimed","data":{"task":1,"team":null}}"#;
    let entries = fold_events(&parse_events(jsonl)).unwrap().agents.into_entries();
    assert_eq!(
        agent_state(&entries, "agent-1"),
        AgentWireState::Working {
            task: TaskId::new(1)
        }
    );
    assert_eq!(agent_state(&entries, "agent-2"), AgentWireState::Idle);

    // agent-2 sleeps, agent-1 parks, agent-1 woken back to Working.
    let jsonl = format!(
        "{jsonl}\n{}\n{}\n{}",
        r#"{"id":3,"at":"2026-07-17T00:00:00Z","source":"agent-2","kind":"agent_slept","data":{"agent":"agent-2"}}"#,
        r#"{"id":4,"at":"2026-07-17T00:00:00Z","source":"agent-1","kind":"agent_parked","data":{"agent":"agent-1","count":3}}"#,
        r#"{"id":5,"at":"2026-07-17T00:00:00Z","source":"orchestrator","kind":"agent_woke","data":{"agent":"agent-1","restored":{"Working":{"task":1}}}}"#,
    );
    let entries = fold_events(&parse_events(&jsonl)).unwrap().agents.into_entries();
    assert_eq!(agent_state(&entries, "agent-2"), AgentWireState::Asleep);
    assert_eq!(
        agent_state(&entries, "agent-1"),
        AgentWireState::Working {
            task: TaskId::new(1)
        },
        "woke restored the still-claimed task"
    );

    // A K=3 park that is NOT woken stays surfaced as parked (not asleep).
    let parked_only = format!(
        "{}\n{}\n{}",
        r#"{"id":0,"at":"2026-07-17T00:00:00Z","source":"system","kind":"run_started","data":{"run_id":"0192f1a0-7e3c-7abc-9def-000000000000","seed":1,"goal":"g","agents":1,"meta_agents":0,"parallel":1,"scenario":null,"caps":{}}}"#,
        r#"{"id":1,"at":"2026-07-17T00:00:00Z","source":"agent-1","kind":"agent_parked","data":{"agent":"agent-1","count":3}}"#,
        r#"{"id":2,"at":"2026-07-17T00:00:00Z","source":"agent-1","kind":"turn_completed","data":{"first_call_seq":0,"last_call_seq":0,"tool_iters":0,"outcome":"Yielded","malformed":false,"usage":{"prompt":1,"completion":1,"total":2},"on_task":null}}"#,
    );
    let entries = fold_events(&parse_events(&parked_only))
        .unwrap()
        .agents
        .into_entries();
    assert_eq!(
        agent_state(&entries, "agent-1"),
        AgentWireState::Parked,
        "the malformed park is surfaced, never collapsed into asleep"
    );
}

#[test]
fn agent_states_serialize_to_the_pinned_shapes() {
    assert_eq!(AgentWireState::Idle.to_json().render(), "\"idle\"");
    assert_eq!(AgentWireState::Asleep.to_json().render(), "\"asleep\"");
    assert_eq!(AgentWireState::Parked.to_json().render(), "\"parked\"");
    assert_eq!(
        AgentWireState::Working {
            task: TaskId::new(3)
        }
        .to_json()
        .render(),
        "{\"working\":{\"task\":3}}"
    );
}

/// An empty/partial log yields a coherent live snapshot with correct
/// `as_of` and a null (unfinished) metrics outcome.
#[test]
fn partial_log_yields_a_coherent_live_snapshot() {
    let jsonl = r#"{"id":0,"at":"2026-07-17T00:00:00Z","source":"system","kind":"run_started","data":{"run_id":"0192f1a0-7e3c-7abc-9def-000000000000","seed":7,"goal":"g","agents":2,"meta_agents":0,"parallel":2,"scenario":null,"caps":{}}}
{"id":1,"at":"2026-07-17T00:00:00Z","source":"orchestrator","kind":"task_created","data":{"task":1,"title":"t","description":"d","team":null}}"#;
    let events = parse_events(jsonl);
    let folded = fold_events(&events).unwrap();
    assert_eq!(folded.as_of, 1);
    // Both agents idle, one open task, run not finished.
    let summary = folded.metrics.summary();
    assert_eq!(summary.outcome, None, "a live run has no outcome yet");
    assert_eq!(summary.counts.tasks_created, 1);
}
fn run_started_line(run_id: &str) -> String {
    format!(
        "{{\"id\":0,\"at\":\"2026-07-17T00:00:00Z\",\"source\":\"system\",\
         \"kind\":\"run_started\",\"data\":{{\"run_id\":\"{run_id}\",\"seed\":42,\
         \"goal\":\"g\",\"agents\":1,\"meta_agents\":0,\"parallel\":1,\
         \"scenario\":null,\"caps\":{{}}}}}}"
    )
}

fn run_finished_line() -> &'static str {
    "{\"id\":1,\"at\":\"2026-07-17T00:00:00Z\",\"source\":\"orchestrator\",\
     \"kind\":\"run_finished\",\"data\":{\"reason\":\"CleanFinish\",\"exit_code\":0}}"
}

fn last_of(log: &str) -> Option<Event> {
    let (lines, _) = split_complete_lines(log.as_bytes());
    let line = lines.last()?;
    try_event(std::str::from_utf8(line).ok()?)
}

fn header_of(log: &str) -> Option<RunHeader> {
    let (lines, _) = split_complete_lines(log.as_bytes());
    let line = lines.first()?;
    let event = try_event(std::str::from_utf8(line).ok()?)?;
    run_header(&event, line)
}

#[test]
fn classifier_reports_finished_when_the_bookend_is_present() {
    let events = format!("{}\n{}\n", run_started_line(RUN_ID), run_finished_line());
    assert_eq!(classify(&last_of(&events), false), RunState::Finished);
    assert_eq!(classify(&last_of(&events), true), RunState::Finished);
}

#[test]
fn classifier_reports_live_while_the_lock_is_held() {
    let events = format!("{}\n", run_started_line(RUN_ID));
    assert_eq!(classify(&last_of(&events), true), RunState::Live);
    assert_eq!(classify(&last_of(&events), false), RunState::Aborted);
}

#[test]
fn classifier_reports_aborted_when_no_lock_and_no_bookend() {
    let events = format!("{}\n", run_started_line(RUN_ID));
    assert_eq!(classify(&last_of(&events), false), RunState::Aborted);
    assert_eq!(classify(&None, false), RunState::Aborted);
}

#[test]
fn discovery_lists_runs_sorted_by_run_id_and_skips_non_runs() {
    let earlier = "0192f1a0-0000-7000-8000-000000000000";
    let later = "0192f1a0-ffff-7000-8000-000000000000";
    let mut runs: Vec<DiscoveredRun> = Vec::new();
    for (path, log) in [
        (later, format!("{}\n", run_started_line(later))),
        (earlier, format!("{}\n", run_started_line(earlier))),
        ("not-a-run", "garbage\n".to_string()),
    ] {
        if let Some(header) = header_of(&log) {
            add_run(
                &mut runs,
                DiscoveredRun {
                    path: path.to_string(),
                    header,
                },
            );
        }
    }
    assert_eq!(runs.len(), 2);
    assert_eq!(run_id_text(runs[0].header.run_id), earlier);
    assert_eq!(run_id_text(runs[1].header.run_id), later);

    let find = |asked: &str| {
        let (id, name) = run_dir_name(asked)?;
        let found = runs.iter().find(|run| run.path == name)?;
        let header = header_of(&format!("{}\n", run_started_line(&found.path)));
        confirm_run(id, name, header)
    };
    assert!(find(earlier).is_some());
    assert!(find("../etc").is_none());
    assert!(find("0192f1a0-dead-7000-8000-000000000000").is_none());
}

#[test]
fn a_run_under_a_name_that_is_not_its_own_is_not_found() {
    let header = header_of(&format!("{}\n", run_started_line(RUN_ID)));
    let other = parse_run_id("0192f1a0-dead-7000-8000-000000000000").unwrap();
    assert!(confirm_run(other, "x".to_string(), header).is_none());
    assert!(confirm_run(other, "x".to_string(), None).is_none());
}

#[test]
fn header_carries_verbatim_run_started_data() {
    let header = header_of(&format!("{}\n", run_started_line(RUN_ID))).unwrap();
    assert_eq!(run_id_text(header.run_id), RUN_ID);
    assert_eq!(header.seed, 42);
    assert_eq!(header.goal, "g");
    assert_eq!(header.data.get("run_id").unwrap().as_str(), Some(RUN_ID));
    assert_eq!(header.data.get("caps").unwrap().render(), "{}");
}

#[test]
fn bookend_check_ignores_a_torn_final_line() {
    let events = format!("{}\n{}", run_started_line(RUN_ID), run_finished_line());
    assert_eq!(classify(&last_of(&events), false), RunState::Aborted);
}

#[test]
fn run_blocks_carry_the_header_and_the_state() {
    let header = header_of(&format!("{}\n", run_started_line(RUN_ID))).unwrap();
    assert_eq!(
        run_block(&header, RunState::Live).render(),
        "{\"agents\":1,\"caps\":{},\"goal\":\"g\",\"meta_agents\":0,\"parallel\":1,\
         \"run_id\":\"0192f1a0-7e3c-7abc-9def-000000000000\",\"scenario\":null,\"seed\":42,\
         \"state\":\"live\"}"
    );
}

#[test]
fn list_entries_name_the_end_only_of_finished_runs() {
    let log = format!("{}\n{}\n", run_started_line(RUN_ID), run_finished_line());
    let header = header_of(&log).unwrap();
    let (lines, _) = split_complete_lines(log.as_bytes());
    let last = last_event(&lines);
    let done = list_entry(&header, RunState::Finished, &last);
    assert_eq!(done.state, "finished");
    assert_eq!(done.last_event_id, 1);
    let end = done.finished.unwrap();
    assert_eq!(end.reason.render(), "\"CleanFinish\"");
    assert_eq!(end.exit_code, 0);
    let live = list_entry(&header, RunState::Live, &last);
    assert_eq!(live.state, "live");
    assert!(live.finished.is_none());
    assert_eq!(list_entry(&header, RunState::Aborted, &None).last_event_id, 0);
    let odd = finished_block(&Json::parse("{\"data\":{\"exit_code\":258}}").unwrap());
    assert_eq!(odd.exit_code, 2);
    assert_eq!(odd.reason.render(), "null");
}

#[test]
fn numbered_lines_skip_what_is_no_event() {
    let lines = vec![
        b"{\"id\":3,\"x\":1}".to_vec(),
        b"{\"x\":1}".to_vec(),
        vec![0xff, 0xfe],
        b"not json".to_vec(),
        b"{\"id\":4}".to_vec(),
    ];
    assert_eq!(
        read_event_lines(&lines),
        vec![
            (3, "{\"id\":3,\"x\":1}".to_string()),
            (4, "{\"id\":4}".to_string())
        ]
    );
    assert_eq!(event_id("{\"id\":-1}"), None);
    assert_eq!(event_id("{\"id\":\"7\"}"), None);
}

#[test]
fn snapshots_wrap_the_fold() {
    let events = parse_events(&finished_log());
    let log = format!("{}\n", finished_log());
    let header = header_of(&log).unwrap();
    let shot = snapshot(&header, RunState::Finished, &events).unwrap();
    assert_eq!(shot.as_of, 6);
    assert_eq!(shot.board.goal, "g");
    assert_eq!(shot.agents.len(), 2);
    assert_eq!(
        shot.metrics.outcome,
        Some((RunFinishReason::CleanFinish, 0))
    );
    assert_eq!(shot.run.get("state").unwrap().as_str(), Some("finished"));
}

#[test]
fn a_task_taken_from_a_sleeping_agent_shows_it_idle() {
    let mut board = Board::new();
    board
        .create_task(
            TaskId::new(1),
            "t".to_string(),
            "d".to_string(),
            AgentId::orchestrator(),
            EventId::new(1),
            None,
        )
        .unwrap();
    let task: &Task = board.task(TaskId::new(1)).unwrap();
    assert_eq!(task.state, TaskState::Open);
    let at = Timestamp {
        millis: 0,
        nanos: 0,
    };
    let mut events = parse_events(
        r#"{"id":0,"at":"2026-07-17T00:00:00Z","source":"system","kind":"run_started","data":{"run_id":"0192f1a0-7e3c-7abc-9def-000000000000","seed":1,"goal":"g","agents":1,"meta_agents":0,"parallel":1,"scenario":null,"caps":{}}}
{"id":1,"at":"2026-07-17T00:00:00Z","source":"orchestrator","kind":"task_created","data":{"task":1,"title":"t","description":"d","team":null}}
{"id":2,"at":"2026-07-17T00:00:00Z","source":"agent-1","kind":"task_claimed","data":{"task":1,"team":null}}
{"id":3,"at":"2026-07-17T00:00:00Z","source":"agent-1","kind":"agent_parked","data":{"agent":"agent-1","count":3}}"#,
    );
    events.push(Event::new(
        EventId::new(4),
        at,
        EventSource::Agent(AgentId::orchestrator()),
        EventKind::TaskUnassigned {
            task: TaskId::new(1),
            prev_claimant: AgentId::team(1),
            reason: None,
            via_directive: None,
        },
    ));
    let folded = fold_events(&events).unwrap();
    assert_eq!(folded.board.task(TaskId::new(1)).unwrap().state, TaskState::Open);
    let entries = folded.agents.into_entries();
    assert_eq!(agent_state(&entries, "agent-1"), AgentWireState::Idle);
}

#[test]
fn source_serializes_as_bare_handle_or_system() {
    assert_eq!(EventSource::Agent(AgentId::team(2)).as_str(), "agent-2");
    assert_eq!(EventSource::System.as_str(), "system");
    let system = EventSource::parse("system").unwrap();
    assert!(system.is_system());
    let agent = EventSource::parse("meta-1").unwrap();
    assert_eq!(agent.agent(), Some(AgentId::meta(1)));
    assert!(EventSource::parse("nobody").is_none());
}

#[test]
fn texts_are_quoted_with_the_escapes_of_json() {
    assert_eq!(quote(""), r#""""#);
    assert_eq!(quote(r#"a "b" \c/"#), r#""a \"b\" \\c/""#);
    assert_eq!(quote("\u{8}\u{c}\n\r\t"), r#""\b\f\n\r\t""#);
    assert_eq!(quote("\0\u{1}\u{b}\u{1f}"), r#""\u0000\u0001\u000b\u001f""#);
    assert_eq!(quote("\u{7f}\u{e9}\u{2028}"), "\"\u{7f}\u{e9}\u{2028}\"");
}
