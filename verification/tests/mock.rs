use openteam::agent::{Role, SpecialtySlug};
use openteam::context::CharCountTokenizer;
use openteam::json::Json;
use openteam::llm::WireIdentity;
use openteam::mock::arc::{BehaviorModel, BuiltinArc};
use openteam::mock::rendered::RenderedWorld;
use openteam::mock::scenario::{
    Call, Response, Say, Scenario, ScenarioError, ScenarioPlayer, Script, Selector,
};
use openteam::mock::server::{
    answer_chat, answer_embeddings, chat_usage, check_embeddings, header_u64,
    read_embeddings, EmbeddingRequest, MockError,
};
use openteam::tools::ToolDef;
use openteam::wire::{
    ChatDecision, ChatMessage, ChatRequest, FinishReason, ResponseMessage, ToolCall,
};
use serde_json::Value;

fn value(text: &str) -> Value {
    serde_json::from_str(text).unwrap()
}

fn sweep_seeds() -> Vec<u64> {
    let mut seeds: Vec<u64> = (0..1000).collect();
    seeds.extend([
        0,
        1,
        u64::MAX,
        2_305_843_009_213_693_951,  // 2^61 - 1 (Mersenne prime)
        18_446_744_073_709_551_557, // largest prime below 2^64
    ]);
    seeds
}

/// A verb of a request, with a schema made from its properties.
fn tool(name: &str, properties: &[(&str, &str)], required: &[&str]) -> ToolDef {
    let shown: Vec<String> = properties
        .iter()
        .map(|(key, kind)| format!("\"{key}\":{kind}"))
        .collect();
    let needed: Vec<String> = required.iter().map(|key| format!("\"{key}\"")).collect();
    let schema = format!(
        "{{\"type\":\"object\",\"properties\":{{{}}},\"required\":[{}],\"additionalProperties\":false}}",
        shown.join(","),
        needed.join(",")
    );
    ToolDef {
        name: name.to_string(),
        description: String::new(),
        parameters: Some(Json::parse(&schema).unwrap()),
        strict: false,
    }
}

const TEXT: &str = "{\"type\":\"string\"}";
const OPT_TEXT: &str = "{\"type\":[\"string\",\"null\"]}";
const NUMBER: &str = "{\"type\":\"integer\"}";
const OPT_NUMBER: &str = "{\"type\":[\"integer\",\"null\"]}";
const OPT_BOOL: &str = "{\"type\":[\"boolean\",\"null\"]}";
const TEXTS: &str = "{\"type\":\"array\",\"items\":{\"type\":\"string\"}}";
const OBJECT: &str = "{\"type\":\"object\"}";

fn tools(role: &str) -> Vec<ToolDef> {
    let shared = || {
        vec![
            tool(
                "post_message",
                &[
                    ("to", OPT_TEXT),
                    ("team", OPT_TEXT),
                    ("broadcast", OPT_BOOL),
                    ("body", TEXT),
                ],
                &["body"],
            ),
            tool("write_knowledge", &[("text", TEXT)], &["text"]),
            tool(
                "search_knowledge",
                &[("query", TEXT), ("k", OPT_NUMBER)],
                &["query"],
            ),
        ]
    };
    match role {
        "team" => {
            let mut all = vec![
                tool("claim_task", &[("task", NUMBER)], &["task"]),
                tool("complete_task", &[("result", TEXT)], &["result"]),
                tool("release_task", &[("reason", OPT_TEXT)], &[]),
            ];
            all.extend(shared());
            all.push(tool("sleep", &[], &[]));
            all
        }
        "orchestrator" => {
            let mut all = vec![
                tool(
                    "create_task",
                    &[("title", TEXT), ("description", TEXT), ("team", OPT_TEXT)],
                    &["title", "description"],
                ),
                tool(
                    "cancel_task",
                    &[("task", NUMBER), ("reason", TEXT)],
                    &["task", "reason"],
                ),
                tool(
                    "unassign_task",
                    &[
                        ("task", NUMBER),
                        ("reason", OPT_TEXT),
                        ("in_response_to", OPT_NUMBER),
                    ],
                    &["task"],
                ),
                tool(
                    "form_team",
                    &[("team", TEXT), ("members", TEXTS)],
                    &["team", "members"],
                ),
                tool("dissolve_team", &[("team", TEXT)], &["team"]),
                tool(
                    "set_team_members",
                    &[
                        ("team", TEXT),
                        ("members", TEXTS),
                        ("in_response_to", OPT_NUMBER),
                    ],
                    &["team", "members"],
                ),
                tool(
                    "respecialize",
                    &[
                        ("agent", TEXT),
                        ("specialty", OBJECT),
                        ("in_response_to", OPT_NUMBER),
                    ],
                    &["agent", "specialty"],
                ),
                tool("sleep_agent", &[("agent", TEXT)], &["agent"]),
                tool("wake_agent", &[("agent", TEXT)], &["agent"]),
                tool(
                    "decline_directive",
                    &[("directive", NUMBER), ("reason", TEXT)],
                    &["directive", "reason"],
                ),
            ];
            all.extend(shared());
            all.push(tool("finish_run", &[("report", TEXT)], &["report"]));
            all
        }
        _ => vec![
            tool("set_parallelism", &[("target", NUMBER)], &["target"]),
            tool("sleep_agent", &[("agent", TEXT)], &["agent"]),
            tool("wake_agent", &[("agent", TEXT)], &["agent"]),
            tool(
                "propose_respecialize",
                &[("agent", TEXT), ("specialty", TEXT)],
                &["agent", "specialty"],
            ),
            tool(
                "propose_reallocate",
                &[("task", NUMBER), ("reason", TEXT)],
                &["task", "reason"],
            ),
            tool(
                "propose_rebalance",
                &[("team", TEXT), ("members", TEXTS)],
                &["team", "members"],
            ),
        ],
    }
}

fn identity(user: &str, call_seq: u64, seed: u64) -> WireIdentity {
    WireIdentity {
        user: user.to_owned(),
        call_seq,
        seed,
    }
}

fn request(sections: &str, role: &str) -> ChatRequest {
    ChatRequest {
        model: "openteam-mock".into(),
        messages: vec![
            ChatMessage::System {
                content: "(harness-owned skeleton — inert to the mock)".into(),
            },
            ChatMessage::User {
                content: sections.into(),
            },
        ],
        tools: tools(role),
        tool_choice: None,
        parallel_tool_calls: Some(role != "meta"),
        user: None,
        stream: None,
        n: None,
    }
}

fn orchestrator_request(sections: &str) -> ChatRequest {
    request(sections, "orchestrator")
}

fn team_request(sections: &str) -> ChatRequest {
    request(sections, "team")
}

fn meta_request(sections: &str) -> ChatRequest {
    request(sections, "meta")
}

fn push_turn_local(req: &mut ChatRequest, verb: &str, args: &str, outcome: &str) {
    let call_id = format!("call_fixture_{}", req.messages.len());
    req.messages.push(ChatMessage::Assistant {
        content: None,
        tool_calls: Some(vec![ToolCall {
            id: call_id.clone(),
            name: verb.into(),
            arguments: args.into(),
        }]),
    });
    req.messages.push(ChatMessage::Tool {
        content: outcome.into(),
        tool_call_id: call_id,
    });
}

const EMPTY_BOARD_SECTIONS: &str = "## Goal\n\
Write a short onboarding guide for new contributors.\n\n\
## Board digest\n\
(empty)\n\
run-health: done 0/0 · agents 0W/3I/0S · mailbox depth 0 (max 0) · ticks-since-done 0\n\n\
## Knowledge retrievals\n\
(none)\n\n\
## Fresh messages\n\
(none)\n\n\
## Directives\n\
(none)";

const TWO_OPEN_TASKS_SECTIONS: &str = "## Goal\n\
Write a short onboarding guide for new contributors.\n\n\
## Board digest\n\
- task 1 [Open] team:t1  \"Draft the setup section\"\n\
- task 2 [Open] team:t1  \"Draft the architecture overview\"\n\n\
## Claimed task\n\
(none)\n\n\
## Recent activity\n\
(none)\n\n\
## Knowledge retrievals\n\
(none)\n\n\
## Fresh messages\n\
(none)";

const WORKING_NO_ACTIVITY_SECTIONS: &str = "## Goal\n\
Write a short onboarding guide for new contributors.\n\n\
## Board digest\n\
- task 2 [Claimed by agent-2] team:t1  \"Draft the architecture overview\"\n\n\
## Claimed task\n\
task 2 — \"Draft the architecture overview\" (team t1)\n\n\
## Recent activity\n\
- [turn 2] claim_task{task:2} -> ok\n\n\
## Knowledge retrievals\n\
(none)\n\n\
## Fresh messages\n\
(none)";

/// A Working team-agent view whose window shows `count` work-actions.
fn working_sections_with_actions(count: usize) -> String {
    let mut activity = String::from("- [turn 2] claim_task{task:2} -> ok\n");
    for turn in 0..count {
        activity.push_str(&format!(
            "- [turn {}] write_knowledge{{\"note {}\"}} -> ok\n",
            4 + 2 * turn,
            turn + 1
        ));
    }
    format!(
        "## Goal\n\
         Write a short onboarding guide for new contributors.\n\n\
         ## Board digest\n\
         - task 2 [Claimed by agent-2] team:t1  \"Draft the architecture overview\"\n\n\
         ## Claimed task\n\
         task 2 — \"Draft the architecture overview\" (team t1)\n\n\
         ## Recent activity\n\
         {activity}\n\
         ## Fresh messages\n\
         (none)"
    )
}

const EIGHT_TASK_BOARD: &str = "## Board digest\n\
- task 1 [Claimed by agent-1] team:t1  \"Draft the setup section\"\n\
- task 2 [Done] team:t1  \"Draft the architecture overview\"\n\
- task 3 [Claimed by agent-2] team:t1  \"Review the guide notes\"\n\
- task 4 [Done] team:t1  \"Outline the contributors plan\"\n\
- task 5 [Done] team:t1  \"Research onboarding details\"\n\
- task 6 [Done] team:t1  \"Summarize setup findings\"\n\
- task 7 [Done] team:t1  \"Draft the welcome section\"\n\
- task 8 [Done] team:t1  \"Review the build notes\"\n\
run-health: done 6/8 · agents 2W/1I/0S · mailbox depth 0 (max 1) · ticks-since-done 0";

/// Non-terminal 8-task board (n ≥ MAX_TASKS so decompose can never fire),
/// no pending directive ⇒ the waiting yield/steer phase for every seed.
fn non_terminal_sections() -> String {
    format!(
        "## Goal\nWrite a short onboarding guide for new contributors.\n\n\
         {EIGHT_TASK_BOARD}\n\n\
         ## Knowledge retrievals\n(none)\n\n\
         ## Fresh messages\n(none)\n\n\
         ## Directives\n(none)"
    )
}

fn pending_directive_sections(directive_line: &str) -> String {
    format!(
        "## Goal\nWrite a short onboarding guide for new contributors.\n\n\
         {EIGHT_TASK_BOARD}\n\n\
         ## Knowledge retrievals\n(none)\n\n\
         ## Fresh messages\n(none)\n\n\
         ## Directives\n{directive_line}"
    )
}

fn all_terminal_sections() -> String {
    "## Goal\nWrite a short onboarding guide for new contributors.\n\n\
     ## Board digest\n\
     - task 1 [Done] team:t1  \"Draft the setup section\"\n\
     - task 2 [Done] team:t1  \"Draft the architecture overview\"\n\
     - task 3 [Done] team:t1  \"Review the guide notes\"\n\
     - task 4 [Done] team:t1  \"Outline the contributors plan\"\n\
     - task 5 [Cancelled] team:t1  \"Research onboarding details\"\n\
     - task 6 [Done] team:t1  \"Summarize setup findings\"\n\
     - task 7 [Done] team:t1  \"Draft the welcome section\"\n\
     - task 8 [Done] team:t1  \"Review the build notes\"\n\
     run-health: done 7/8 · agents 0W/3I/0S · mailbox depth 2 (max 2) · ticks-since-done 0\n\n\
     ## Knowledge retrievals\n(none)\n\n\
     ## Fresh messages\n(none)\n\n\
     ## Directives\n(none)"
        .to_owned()
}

const META_FRESH_SECTIONS: &str = "## Goal\n\
Write a short onboarding guide for new contributors.\n\n\
## Metrics digest\n\
throughput: 0 task_completed / 15 EventIds · latency: work n/a\n\
utilization:\n\
\u{20}\u{20}- agent-1: Working (task 1), generalist\n\
\u{20}\u{20}- agent-2: Working (task 2), generalist\n\
\u{20}\u{20}- agent-3: Idle, generalist (idle 8)\n\
mailbox: depth 0, max 1, oldest-pending-age 0\n\
tokens: run 2.6k · faults: parks 0, malformed[a1:0 a2:0 a3:0] · directives: issued 0/ful 0/dec 0\n\n\
## Directive outcomes\n\
(none issued)\n\n\
## Recent events\n\
- event 5 task_claimed (agent-1)";

const META_JUDGMENT_USED_SECTIONS: &str = "## Goal\n\
Write a short onboarding guide for new contributors.\n\n\
## Metrics digest\n\
throughput: 1 task_completed / 23 EventIds · latency: work median 6 EventIds\n\
utilization:\n\
\u{20}\u{20}- agent-1: Working (task 1), generalist\n\
\u{20}\u{20}- agent-2: Idle, generalist (idle 4)\n\
\u{20}\u{20}- agent-3: Idle, doc-curator (idle 3)\n\
mailbox: depth 0, max 1, oldest-pending-age 0\n\
tokens: run 3.4k · faults: parks 0 · directives: issued 1/ful 1/dec 0\n\n\
## Directive outcomes\n\
- directive 1 [judgment] propose_respecialize{agent:agent-3, specialty:doc-curator} — fulfilled by orchestrator\n\n\
## Recent events\n\
- event 21 directive_fulfilled (orchestrator)";

const META_BOTH_USED_SECTIONS: &str = "## Goal\n\
Write a short onboarding guide for new contributors.\n\n\
## Metrics digest\n\
throughput: 2 task_completed / 31 EventIds · latency: work median 6 EventIds\n\
utilization:\n\
\u{20}\u{20}- agent-1: Idle, generalist (idle 1)\n\
\u{20}\u{20}- agent-2: Idle, generalist (idle 6)\n\
\u{20}\u{20}- agent-3: Idle, doc-curator (idle 5)\n\
mailbox: depth 2, max 2, oldest-pending-age 4\n\
tokens: run 4.1k · faults: parks 0 · directives: issued 2/ful 2/dec 0\n\n\
## Directive outcomes\n\
- directive 1 [judgment] propose_respecialize{agent:agent-3, specialty:doc-curator} — fulfilled by orchestrator\n\
- directive 2 [mechanical] set_parallelism{target:2} — fulfilled by runtime\n\n\
## Recent events\n\
- event 25 parallelism_changed (meta-1)";

const META_ALL_WORKING_SECTIONS: &str = "## Goal\n\
Write a short onboarding guide for new contributors.\n\n\
## Metrics digest\n\
throughput: 0 task_completed / 12 EventIds · latency: work n/a\n\
utilization:\n\
\u{20}\u{20}- agent-1: Working (task 1), generalist\n\
\u{20}\u{20}- agent-2: Working (task 2), doc-curator\n\
mailbox: depth 0, max 0, oldest-pending-age 0\n\
tokens: run 1.2k · faults: parks 0 · directives: issued 0/ful 0/dec 0\n\n\
## Directive outcomes\n\
(none issued)\n\n\
## Recent events\n\
- event 5 task_claimed (agent-1)";

const PENDING_DIRECTIVE_LINE: &str = "- directive 1 [judgment, pending] propose_respecialize{agent:agent-3, specialty:doc-curator} from meta-1";
const PENDING_REALLOCATE_LINE: &str = "- directive 2 [judgment, pending] propose_reallocate{task:3, reason:\"stalled claim\"} from meta-1";
const PENDING_REBALANCE_LINE: &str = "- directive 3 [judgment, pending] propose_rebalance{team:t1, members:[agent-1 agent-2]} from meta-1";

/// A team-agent view with nothing claimable: Idle and every visible task
/// terminal or claimed by someone else.
const NOTHING_ELIGIBLE_SECTIONS: &str = "## Goal\n\
Write a short onboarding guide for new contributors.\n\n\
## Board digest\n\
- task 1 [Claimed by agent-1] team:t1  \"Draft the setup section\"\n\
- task 2 [Done] team:t1  \"Draft the architecture overview\"\n\n\
## Claimed task\n\
(none)\n\n\
## Recent activity\n\
(none)\n\n\
## Fresh messages\n\
(none)";


/// What a sweep case asserts beyond schema validity, for every seed.
#[derive(Clone, Copy)]
enum Expect {
    /// Must be the mandatory no-tool-call yield.
    Yield,
    /// Must emit ≥1 call, every verb within the allowed set.
    CallsAmong(&'static [&'static str]),
    /// May yield; any calls must be within the allowed set.
    YieldOrCallsAmong(&'static [&'static str]),
}

struct SweepCase {
    name: &'static str,
    user: String,
    call_seq: u64,
    request: ChatRequest,
    expect: Expect,
}

fn sweep_cases() -> Vec<SweepCase> {
    let mut cases = vec![SweepCase {
        name: "orch-empty-board",
        user: "orchestrator".into(),
        call_seq: 0,
        request: orchestrator_request(EMPTY_BOARD_SECTIONS),
        expect: Expect::CallsAmong(&["create_task", "form_team"]),
    }];
    cases.push(SweepCase {
        name: "orch-partial-board",
        user: "orchestrator".into(),
        call_seq: 2,
        request: orchestrator_request(
            "## Goal\nWrite a short onboarding guide for new contributors.\n\n\
             ## Board digest\n\
             - task 1 [Open] team:t1  \"Draft the setup section\"\n\
             run-health: done 0/1 · agents 0W/3I/0S · mailbox depth 0 (max 0) · ticks-since-done 1\n\n\
             ## Directives\n(none)",
        ),
        expect: Expect::YieldOrCallsAmong(&["create_task", "post_message"]),
    });
    cases.push(SweepCase {
        name: "orch-pending-respecialize",
        user: "orchestrator".into(),
        call_seq: 4,
        request: orchestrator_request(&pending_directive_sections(PENDING_DIRECTIVE_LINE)),
        expect: Expect::CallsAmong(&["respecialize", "decline_directive"]),
    });
    cases.push(SweepCase {
        name: "orch-pending-reallocate",
        user: "orchestrator".into(),
        call_seq: 4,
        request: orchestrator_request(&pending_directive_sections(PENDING_REALLOCATE_LINE)),
        expect: Expect::CallsAmong(&["unassign_task", "decline_directive"]),
    });
    cases.push(SweepCase {
        name: "orch-pending-rebalance",
        user: "orchestrator".into(),
        call_seq: 4,
        request: orchestrator_request(&pending_directive_sections(PENDING_REBALANCE_LINE)),
        expect: Expect::CallsAmong(&["set_team_members", "decline_directive"]),
    });
    cases.push(SweepCase {
        name: "orch-non-terminal",
        user: "orchestrator".into(),
        call_seq: 2,
        request: orchestrator_request(&non_terminal_sections()),
        expect: Expect::YieldOrCallsAmong(&["post_message"]),
    });
    cases.push(SweepCase {
        name: "orch-all-terminal",
        user: "orchestrator".into(),
        call_seq: 6,
        request: orchestrator_request(&all_terminal_sections()),
        expect: Expect::CallsAmong(&["finish_run"]),
    });
    let mut after_batch = orchestrator_request(EMPTY_BOARD_SECTIONS);
    push_turn_local(
        &mut after_batch,
        "create_task",
        "{\"title\":\"T\",\"description\":\"D\",\"team\":\"t1\"}",
        "{\"status\":\"ok\",\"result\":{\"task\":1}}",
    );
    cases.push(SweepCase {
        name: "orch-after-batch",
        user: "orchestrator".into(),
        call_seq: 1,
        request: after_batch,
        expect: Expect::Yield,
    });

    cases.push(SweepCase {
        name: "team-idle-open",
        user: "team-agent:agent-1:generalist".into(),
        call_seq: 0,
        request: team_request(TWO_OPEN_TASKS_SECTIONS),
        expect: Expect::CallsAmong(&["claim_task"]),
    });
    cases.push(SweepCase {
        name: "team-working-fresh",
        user: "team-agent:agent-2:generalist".into(),
        call_seq: 2,
        request: team_request(WORKING_NO_ACTIVITY_SECTIONS),
        expect: Expect::CallsAmong(&["write_knowledge", "post_message", "search_knowledge"]),
    });
    cases.push(SweepCase {
        name: "team-working-saturated",
        user: "team-agent:agent-2:generalist".into(),
        call_seq: 6,
        request: team_request(&working_sections_with_actions(3)),
        expect: Expect::CallsAmong(&["complete_task"]),
    });
    cases.push(SweepCase {
        name: "team-degraded-window",
        user: "team-agent:agent-2:generalist".into(),
        call_seq: 4,
        request: team_request(
            "## Goal\nWrite a short onboarding guide for new contributors.\n\n\
             ## Board digest\n\
             - task 2 [Claimed by agent-2] team:t1  \"Draft the architecture overview\"\n\n\
             ## Claimed task\ntask 2 — \"Draft the architecture overview\" (team t1)\n\n\
             ## Recent activity\n(degraded: 2 dropped)\n\n\
             ## Fresh messages\n(none)",
        ),
        expect: Expect::CallsAmong(&["complete_task"]),
    });
    let mut lost_claim = team_request(TWO_OPEN_TASKS_SECTIONS);
    push_turn_local(
        &mut lost_claim,
        "claim_task",
        "{\"task\":1}",
        "{\"status\":\"rejected\",\"code\":\"task_not_open\",\"message\":\"task 1 is not Open\"}",
    );
    cases.push(SweepCase {
        name: "team-lost-claim",
        user: "team-agent:agent-3:generalist".into(),
        call_seq: 1,
        request: lost_claim,
        expect: Expect::Yield,
    });
    cases.push(SweepCase {
        name: "team-nothing-eligible",
        user: "team-agent:agent-3:generalist".into(),
        call_seq: 2,
        request: team_request(NOTHING_ELIGIBLE_SECTIONS),
        expect: Expect::Yield,
    });

    cases.push(SweepCase {
        name: "meta-fresh",
        user: "meta-agent:meta-1".into(),
        call_seq: 0,
        request: meta_request(META_FRESH_SECTIONS),
        expect: Expect::CallsAmong(&["propose_respecialize"]),
    });
    cases.push(SweepCase {
        name: "meta-judgment-used",
        user: "meta-agent:meta-1".into(),
        call_seq: 2,
        request: meta_request(META_JUDGMENT_USED_SECTIONS),
        expect: Expect::CallsAmong(&["set_parallelism"]),
    });
    cases.push(SweepCase {
        name: "meta-both-used",
        user: "meta-agent:meta-1".into(),
        call_seq: 4,
        request: meta_request(META_BOTH_USED_SECTIONS),
        expect: Expect::Yield,
    });
    cases.push(SweepCase {
        name: "meta-no-idle-generalist",
        user: "meta-agent:meta-1".into(),
        call_seq: 0,
        request: meta_request(META_ALL_WORKING_SECTIONS),
        expect: Expect::CallsAmong(&["propose_reallocate"]),
    });

    cases.push(SweepCase {
        name: "plain-client",
        user: "some-arbitrary-client".into(),
        call_seq: 0,
        request: orchestrator_request("What is the capital of France?"),
        expect: Expect::Yield,
    });

    cases
}

fn assert_schema_valid(
    req: &ChatRequest,
    decision: &ChatDecision,
) -> Result<(), String> {
    let calls = decision.message.tool_calls.as_deref().unwrap_or_default();
    match decision.finish {
        FinishReason::ToolCalls if calls.is_empty() => {
            return Err("finish tool_calls with no calls".into());
        }
        FinishReason::Stop if !calls.is_empty() => {
            return Err("finish stop with tool calls".into());
        }
        _ => {}
    }
    let mut seen_ids = std::collections::BTreeSet::new();
    for call in calls {
        if !seen_ids.insert(call.id.as_str()) {
            return Err(format!("duplicate tool-call id {}", call.id));
        }
        let tool = req
            .tools
            .iter()
            .find(|tool| tool.name == call.name)
            .ok_or_else(|| format!("verb {} is not in the tools array", call.name))?;
        let args: Value = serde_json::from_str(&call.arguments)
            .map_err(|fault| format!("{}: arguments not JSON: {fault}", call.name))?;
        let object = args
            .as_object()
            .ok_or_else(|| format!("{}: arguments not an object", call.name))?;
        let schema: Option<Value> = tool
            .parameters
            .as_ref()
            .map(|p| serde_json::from_str(&p.render()).unwrap());
        let Some(schema) = &schema else {
            if object.is_empty() {
                continue;
            }
            return Err(format!(
                "{}: args for a parameterless tool",
                call.name
            ));
        };
        if let Some(required) = schema.get("required").and_then(Value::as_array) {
            for key in required.iter().filter_map(Value::as_str) {
                if !object.contains_key(key) {
                    return Err(format!("{}: missing required {key}", call.name));
                }
            }
        }
        let properties = schema.get("properties").and_then(Value::as_object);
        for (key, value) in object {
            let Some(properties) = properties else {
                return Err(format!(
                    "{}: key {key} on a property-less schema",
                    call.name
                ));
            };
            let Some(property) = properties.get(key) else {
                return Err(format!(
                    "{}: key {key} outside the schema",
                    call.name
                ));
            };
            if let Some(expected) = property.get("type") {
                if !type_fits(expected, value) {
                    return Err(format!(
                        "{}: key {key} has type-mismatched value {value}",
                        call.name
                    ));
                }
            }
        }
    }
    Ok(())
}

fn type_fits(expected: &Value, value: &Value) -> bool {
    match expected {
        Value::String(kind) => single_type_fits(kind, value),
        Value::Array(kinds) => kinds
            .iter()
            .filter_map(Value::as_str)
            .any(|kind| single_type_fits(kind, value)),
        _ => true,
    }
}

fn single_type_fits(kind: &str, value: &Value) -> bool {
    match kind {
        "string" => value.is_string(),
        "integer" => value.is_i64() || value.is_u64(),
        "number" => value.is_number(),
        "boolean" => value.is_boolean(),
        "array" => value.is_array(),
        "object" => value.is_object(),
        "null" => value.is_null(),
        _ => true,
    }
}

fn arc_chat(
    user: &str,
    seed: u64,
    call_seq: u64,
    req: &ChatRequest,
) -> ChatDecision {
    BuiltinArc::new().chat(req, &identity(user, call_seq, seed))
}

fn call_names(decision: &ChatDecision) -> Vec<String> {
    decision
        .message
        .tool_calls
        .iter()
        .flatten()
        .map(|call| call.name.clone())
        .collect()
}

fn args_of(decision: &ChatDecision, index: usize) -> Value {
    let calls = decision.message.tool_calls.as_ref().expect("tool calls");
    serde_json::from_str(&calls[index].arguments).expect("valid JSON args")
}

fn assert_yield(decision: &ChatDecision) {
    assert_eq!(decision.finish, FinishReason::Stop);
    assert!(decision.message.tool_calls.is_none());
    let text = decision.message.content.as_deref().unwrap_or_default();
    assert!(!text.is_empty(), "a yield carries short plausible text");
}

#[test]
fn budget_and_quota_stay_in_bounds_for_every_seed() {
    for seed in sweep_seeds() {
        let budget = BuiltinArc::task_budget(seed);
        assert!((1..=8).contains(&budget), "T={budget} for seed {seed}");
        for agent in ["agent-1", "agent-7"] {
            for task in [1_u64, 2, 8, 1000] {
                let quota = BuiltinArc::work_quota(seed, agent, task);
                assert!(
                    (1..=3).contains(&quota),
                    "W={quota} for ({seed},{agent},{task})"
                );
            }
        }
    }
}

#[test]
fn budget_and_quota_are_stable() {
    assert_eq!(BuiltinArc::task_budget(42), BuiltinArc::task_budget(42));
    assert_eq!(
        BuiltinArc::work_quota(42, "agent-1", 1),
        BuiltinArc::work_quota(42, "agent-1", 1)
    );
}

#[test]
fn seed_sweep_never_invalid_never_loops() {
    let arc = BuiltinArc::new();
    let cases = sweep_cases();
    for seed in sweep_seeds() {
        for case in &cases {
            let id = identity(&case.user, case.call_seq, seed);
            let decision = arc.chat(&case.request, &id);
            assert_schema_valid(&case.request, &decision)
                .unwrap_or_else(|fault| panic!("seed {seed}, case {}: {fault}", case.name));
            match case.expect {
                Expect::Yield => {
                    assert_eq!(
                        decision.finish,
                        FinishReason::Stop,
                        "seed {seed}, case {} must yield",
                        case.name
                    );
                    assert!(decision.message.tool_calls.is_none());
                }
                Expect::CallsAmong(allowed) => {
                    let names = call_names(&decision);
                    assert!(!names.is_empty(), "seed {seed}, case {}", case.name);
                    for name in &names {
                        assert!(
                            allowed.contains(&name.as_str()),
                            "seed {seed}, case {}: unexpected verb {name}",
                            case.name
                        );
                    }
                }
                Expect::YieldOrCallsAmong(allowed) => {
                    for name in call_names(&decision) {
                        assert!(
                            allowed.contains(&name.as_str()),
                            "seed {seed}, case {}: unexpected verb {name}",
                            case.name
                        );
                    }
                }
            }
        }
    }
}

#[test]
fn pair_a_empty_board_decomposes_within_budget() {
    let req = orchestrator_request(EMPTY_BOARD_SECTIONS);
    for seed in sweep_seeds() {
        let decision = arc_chat("orchestrator", seed, 0, &req);
        assert_eq!(decision.finish, FinishReason::ToolCalls);
        let names = call_names(&decision);
        let creates = names.iter().filter(|n| *n == "create_task").count() as u64;
        assert!(creates >= 1, "seed {seed}: decompose must create tasks");
        assert!(
            creates <= BuiltinArc::task_budget(seed),
            "seed {seed}: batch one exceeds T"
        );
        for name in &names {
            assert!(
                name == "create_task" || name == "form_team",
                "seed {seed}: unexpected decompose verb {name}"
            );
        }
        // form_team, when present, spans the whole pool from run-health.
        if let Some(position) = names.iter().position(|n| n == "form_team") {
            let args = args_of(&decision, position);
            assert_eq!(args["members"].as_array().map(Vec::len), Some(3));
        }
    }
}

#[test]
fn batch_two_tops_the_board_up_to_the_budget() {
    // Find a seed with T >= 3 so a 1-task board triggers batch two.
    let seed = sweep_seeds()
        .into_iter()
        .find(|&s| BuiltinArc::task_budget(s) >= 3)
        .expect("some seed has T >= 3");
    let sections = "## Goal\nWrite a short onboarding guide for new contributors.\n\n\
         ## Board digest\n\
         - task 1 [Open] team:t1  \"Draft the setup section\"\n\
         run-health: done 0/1 · agents 0W/3I/0S · mailbox depth 0 (max 0) · ticks-since-done 0\n\n\
         ## Directives\n(none)";
    let req = orchestrator_request(sections);
    let decision = arc_chat("orchestrator", seed, 2, &req);
    let names = call_names(&decision);
    let creates = names.iter().filter(|n| *n == "create_task").count() as u64;
    assert_eq!(creates, BuiltinArc::task_budget(seed) - 1);
    assert!(
        !names.contains(&"form_team".to_owned()),
        "batch two never re-forms the team"
    );
    // Batch-two tasks join the dominant visible team tag.
    let args = args_of(&decision, 0);
    assert_eq!(args["team"], "t1");
}

#[test]
fn pair_b_lost_claim_race_yields_not_hammers() {
    let mut req = team_request(TWO_OPEN_TASKS_SECTIONS);
    push_turn_local(
        &mut req,
        "claim_task",
        "{\"task\":1}",
        "{\"status\":\"rejected\",\"code\":\"task_not_open\",\"message\":\"task 1 is not Open (Claimed by agent-1)\"}",
    );
    for seed in sweep_seeds() {
        let decision = arc_chat("team-agent:agent-3:generalist", seed, 1, &req);
        assert_yield(&decision);
    }
}

#[test]
fn idle_agent_claims_the_lowest_id_open_task() {
    let req = team_request(TWO_OPEN_TASKS_SECTIONS);
    for seed in sweep_seeds() {
        let decision = arc_chat("team-agent:agent-1:generalist", seed, 0, &req);
        assert_eq!(call_names(&decision), vec!["claim_task"]);
        assert_eq!(args_of(&decision, 0), value(r#"{"task": 1}"#));
    }
}

#[test]
fn working_agent_emits_one_work_action_below_quota() {
    let req = team_request(WORKING_NO_ACTIVITY_SECTIONS);
    for seed in sweep_seeds() {
        let decision = arc_chat("team-agent:agent-2:generalist", seed, 2, &req);
        let names = call_names(&decision);
        assert_eq!(names.len(), 1, "seed {seed}: exactly one work-action");
        assert!(
            ["write_knowledge", "post_message", "search_knowledge"]
                .contains(&names[0].as_str()),
            "seed {seed}: {} is not a work-action",
            names[0]
        );
    }
}

#[test]
fn work_quota_re_derivation_gates_completion() {
    for seed in [0_u64, 1, 42, u64::MAX] {
        let quota = BuiltinArc::work_quota(seed, "agent-2", 2);
        // Window count == quota ⇒ complete.
        let at_quota =
            team_request(&working_sections_with_actions(quota as usize));
        let decision = arc_chat("team-agent:agent-2:generalist", seed, 4, &at_quota);
        assert_eq!(call_names(&decision), vec!["complete_task"]);
        // Window count == quota - 1 ⇒ one more work-action.
        if quota > 1 {
            let below = team_request(&working_sections_with_actions(
                quota as usize - 1,
            ));
            let decision = arc_chat("team-agent:agent-2:generalist", seed, 4, &below);
            assert_ne!(call_names(&decision), vec!["complete_task".to_owned()]);
        }
    }
}

#[test]
fn degraded_window_forces_completion() {
    let sections = "## Goal\nWrite a short onboarding guide for new contributors.\n\n\
         ## Board digest\n\
         - task 2 [Claimed by agent-2] team:t1  \"Draft the architecture overview\"\n\n\
         ## Claimed task\ntask 2 — \"Draft the architecture overview\" (team t1)\n\n\
         ## Recent activity\n(degraded: 2 dropped)\n\n\
         ## Fresh messages\n(none)";
    let req = team_request(sections);
    for seed in sweep_seeds() {
        let decision = arc_chat("team-agent:agent-2:generalist", seed, 4, &req);
        assert_eq!(
            call_names(&decision),
            vec!["complete_task"],
            "seed {seed}: degradation must be a shortcut to completion, never a block"
        );
    }
}

#[test]
fn pair_c_meta_targets_the_idle_generalist() {
    let req = meta_request(META_FRESH_SECTIONS);
    for seed in sweep_seeds() {
        let decision = arc_chat("meta-agent:meta-1", seed, 0, &req);
        assert_eq!(call_names(&decision), vec!["propose_respecialize"]);
        let args = args_of(&decision, 0);
        assert_eq!(args["agent"], "agent-3", "the only Idle generalist");
        let slug = args["specialty"].as_str().expect("slug string");
        assert!(SpecialtySlug::parse(slug).is_some());
        assert_ne!(slug, "generalist");
    }
}

#[test]
fn pair_d_pending_directive_is_resolved_with_a_cite_or_declined() {
    let req = orchestrator_request(&pending_directive_sections(
        PENDING_DIRECTIVE_LINE,
    ));
    let mut acted = false;
    let mut declined = false;
    for seed in sweep_seeds() {
        let decision = arc_chat("orchestrator", seed, 4, &req);
        let names = call_names(&decision);
        assert_eq!(names.len(), 1, "seed {seed}: resolve is a single call");
        let args = args_of(&decision, 0);
        match names[0].as_str() {
            "respecialize" => {
                acted = true;
                assert_eq!(args["agent"], "agent-3");
                assert_eq!(args["in_response_to"], 1, "act must cite the directive");
                assert_eq!(args["specialty"]["name"], "doc-curator");
                assert!(args["specialty"]["description"].is_string());
                assert!(args["specialty"]["focus"].is_string());
            }
            "decline_directive" => {
                declined = true;
                assert_eq!(args["directive"], 1);
                assert!(args["reason"].is_string());
            }
            other => panic!("seed {seed}: unexpected resolve verb {other}"),
        }
    }
    assert!(acted, "some seed must act with a cite");
    assert!(declined, "some seed must decline");
}

#[test]
fn reallocate_and_rebalance_directives_resolve_through_matching_verbs() {
    let mut moved = false;
    let mut rebalanced = false;
    for seed in sweep_seeds() {
        let req = orchestrator_request(&pending_directive_sections(
            PENDING_REALLOCATE_LINE,
        ));
        let decision = arc_chat("orchestrator", seed, 4, &req);
        let names = call_names(&decision);
        if names == ["unassign_task"] {
            moved = true;
            let args = args_of(&decision, 0);
            assert_eq!(args["task"], 3);
            assert_eq!(args["in_response_to"], 2);
        }
        let req = orchestrator_request(&pending_directive_sections(
            PENDING_REBALANCE_LINE,
        ));
        let decision = arc_chat("orchestrator", seed, 4, &req);
        let names = call_names(&decision);
        if names == ["set_team_members"] {
            rebalanced = true;
            let args = args_of(&decision, 0);
            assert_eq!(args["team"], "t1");
            assert_eq!(
                args["members"],
                value(r#"["agent-1", "agent-2"]"#),
                "members list parsed from the directive line"
            );
            assert_eq!(args["in_response_to"], 3);
        }
    }
    assert!(moved && rebalanced);
}

#[test]
fn pair_e_unused_mechanical_tier_fires_set_parallelism() {
    let req = meta_request(META_JUDGMENT_USED_SECTIONS);
    for seed in sweep_seeds() {
        let decision = arc_chat("meta-agent:meta-1", seed, 2, &req);
        assert_eq!(call_names(&decision), vec!["set_parallelism"]);
        let target = args_of(&decision, 0)["target"].as_u64().expect("int");
        assert!(target >= 1);
    }
}

#[test]
fn meta_with_both_tiers_used_yields() {
    let req = meta_request(META_BOTH_USED_SECTIONS);
    for seed in sweep_seeds() {
        assert_yield(&arc_chat("meta-agent:meta-1", seed, 4, &req));
    }
}

#[test]
fn all_terminal_board_finishes_the_run_with_a_report() {
    let req = orchestrator_request(&all_terminal_sections());
    for seed in sweep_seeds() {
        let decision = arc_chat("orchestrator", seed, 6, &req);
        assert_eq!(call_names(&decision), vec!["finish_run"]);
        let report = args_of(&decision, 0)["report"]
            .as_str()
            .expect("report string")
            .to_owned();
        assert!(report.starts_with("# "), "report is a markdown document");
        assert!(report.contains("Draft the setup section"));
        assert!(report.contains("Draft the architecture overview"));
    }
}

#[test]
fn waiting_orchestrator_yields_or_steers_rarely() {
    let req = orchestrator_request(&non_terminal_sections());
    let mut yields = 0_u32;
    let mut steers = 0_u32;
    for seed in sweep_seeds() {
        let decision = arc_chat("orchestrator", seed, 2, &req);
        match call_names(&decision).as_slice() {
            [] => {
                assert_yield(&decision);
                yields += 1;
            }
            [name] => {
                assert_eq!(name, "post_message");
                let args = args_of(&decision, 0);
                let direct = args.get("to").is_some();
                let broadcast = args.get("broadcast").is_some();
                assert!(direct ^ broadcast, "exactly one address form");
                steers += 1;
            }
            other => panic!("unexpected steer batch {other:?}"),
        }
    }
    assert!(yields > steers, "the steer must stay rare");
    assert!(steers > 0, "the steer must be reachable");
}

#[test]
fn unparseable_user_still_gets_a_plausible_yield() {
    let req = orchestrator_request("What is the capital of France?");
    for user in ["", "not-a-grammar-user", "team-agent:bogus"] {
        let decision = arc_chat(user, 42, 0, &req);
        assert_yield(&decision);
    }
}

#[test]
fn missing_tools_degrade_to_a_yield() {
    let mut req = orchestrator_request(EMPTY_BOARD_SECTIONS);
    req.tools = vec![];
    for seed in [0_u64, 42, u64::MAX] {
        assert_yield(&arc_chat("orchestrator", seed, 0, &req));
    }
}

#[test]
fn parallel_tool_calls_false_caps_the_batch_at_one() {
    let mut req = orchestrator_request(EMPTY_BOARD_SECTIONS);
    req.parallel_tool_calls = Some(false);
    for seed in [0_u64, 7, 42] {
        let decision = arc_chat("orchestrator", seed, 0, &req);
        assert!(call_names(&decision).len() <= 1);
    }
}

#[test]
fn decisions_are_deterministic_per_tuple_and_vary_across_call_seq() {
    let req = orchestrator_request(EMPTY_BOARD_SECTIONS);
    let one = arc_chat("orchestrator", 42, 0, &req);
    let two = arc_chat("orchestrator", 42, 0, &req);
    assert_eq!(one.message, two.message);
}

#[test]
fn tool_call_ids_are_deterministic_and_unique_within_a_completion() {
    let req = orchestrator_request(EMPTY_BOARD_SECTIONS);
    let seed = sweep_seeds()
        .into_iter()
        .find(|&s| BuiltinArc::task_budget(s) >= 2)
        .expect("some seed has T >= 2");
    let decision = arc_chat("orchestrator", seed, 0, &req);
    let calls = decision.message.tool_calls.expect("tool calls");
    let ids: Vec<&str> = calls.iter().map(|call| call.id.as_str()).collect();
    for (index, id) in ids.iter().enumerate() {
        assert_eq!(*id, format!("call_orchestrator_0_{}", index + 1));
    }
}

// ---------------------------------------------------------------------------
// Scenarios.
// ---------------------------------------------------------------------------

fn say_text(text: &str) -> Response {
    Response::Say(Say {
        text: Some(text.to_string()),
        tool_calls: vec![],
        finish: None,
    })
}

fn say_calls(calls: &[(&str, &str)]) -> Response {
    Response::Say(Say {
        text: None,
        tool_calls: calls
            .iter()
            .map(|(name, arguments)| Call {
                name: name.to_string(),
                arguments: Json::parse(arguments).unwrap(),
            })
            .collect(),
        finish: None,
    })
}

fn script(agent: &str, responses: Vec<Response>, repeat: Vec<Response>) -> Script {
    Script {
        agent: Selector::parse(agent).unwrap(),
        responses,
        repeat,
    }
}

fn scenario(scripts: Vec<Script>) -> Scenario {
    Scenario {
        version: 1,
        description: None,
        reproduces: None,
        scripts,
    }
}

fn player(scripts: Vec<Script>) -> ScenarioPlayer {
    ScenarioPlayer::new(scenario(scripts).checked().unwrap())
}

fn chat(player: &ScenarioPlayer, user: &str, call_seq: u64) -> ChatDecision {
    let req = team_request(TWO_OPEN_TASKS_SECTIONS);
    player.chat(&req, &identity(user, call_seq, 42))
}

fn text_of(decision: &ChatDecision) -> String {
    decision.message.content.clone().unwrap_or_default()
}

#[test]
fn structural_validation_permits_invalid_scripted_calls() {
    let scripted = player(vec![script(
        "agent-1",
        vec![say_calls(&[(
            "definitely_not_a_verb",
            "{\"bogus\": [1, 2, {\"x\": null}]}",
        )])],
        vec![],
    )]);
    let decision = chat(&scripted, "team-agent:agent-1:generalist", 0);
    assert_eq!(decision.finish, FinishReason::ToolCalls);
    let calls = decision.message.tool_calls.expect("scripted call");
    assert_eq!(calls[0].name, "definitely_not_a_verb");
    let args: Value = serde_json::from_str(&calls[0].arguments).expect("json");
    assert_eq!(args["bogus"][2]["x"], Value::Null);
}

#[test]
fn unknown_version_and_bad_selector_fail_fast() {
    let mut other = scenario(vec![]);
    other.version = 2;
    assert!(matches!(
        other.checked(),
        Err(ScenarioError::UnsupportedVersion { found: 2 })
    ));
    assert_eq!(
        Selector::parse("worker-*").unwrap_err(),
        "invalid agent selector \"worker-*\": expected \"orchestrator\", an exact handle, \"agent-*\", or \"meta-*\""
    );
    assert!(Selector::parse("yield").is_err());
    assert_eq!(Selector::parse("agent-*"), Ok(Selector::TeamWildcard));
    assert_eq!(Selector::parse("meta-*"), Ok(Selector::MetaWildcard));
    assert_eq!(
        Selector::parse("agent-2"),
        Ok(Selector::Exact("agent-2".to_string()))
    );
}

#[test]
fn scenario_errors_read_as_text() {
    assert_eq!(
        ScenarioError::UnsupportedVersion { found: 2 }.message(),
        "unsupported scenario version 2; this build supports version 1"
    );
    assert_eq!(
        ScenarioError::Parse("eof".to_string()).message(),
        "scenario file is not structurally valid: eof"
    );
    assert_eq!(
        ScenarioError::Io {
            path: "/x".to_string(),
            source: "gone".to_string()
        }
        .message(),
        "failed to read scenario file /x: gone"
    );
}

#[test]
fn unknown_response_keyword_fails_fast() {
    assert_eq!(
        Response::keyword("stop").unwrap_err(),
        "unknown response keyword \"stop\": expected \"yield\" or \"fallthrough\""
    );
    assert!(matches!(Response::keyword("yield"), Ok(Response::Yield)));
    assert!(matches!(
        Response::keyword("fallthrough"),
        Ok(Response::Fallthrough)
    ));
}

#[test]
fn exact_handle_beats_role_wildcard() {
    let scripted = player(vec![
        script("agent-*", vec![say_text("wildcard")], vec![say_text("wildcard")]),
        script("agent-2", vec![say_text("exact")], vec![say_text("exact")]),
    ]);
    assert_eq!(
        text_of(&chat(&scripted, "team-agent:agent-2:generalist", 0)),
        "exact"
    );
    assert_eq!(
        text_of(&chat(&scripted, "team-agent:agent-1:generalist", 0)),
        "wildcard"
    );
}

#[test]
fn call_seq_is_the_cursor_and_repeat_cycles() {
    let scripted = player(vec![script(
        "agent-1",
        vec![say_text("r0"), say_text("r1")],
        vec![say_text("loop-a"), say_text("loop-b")],
    )]);
    let user = "team-agent:agent-1:generalist";
    assert_eq!(text_of(&chat(&scripted, user, 0)), "r0");
    assert_eq!(text_of(&chat(&scripted, user, 1)), "r1");
    assert_eq!(text_of(&chat(&scripted, user, 2)), "loop-a");
    assert_eq!(text_of(&chat(&scripted, user, 3)), "loop-b");
    assert_eq!(text_of(&chat(&scripted, user, 4)), "loop-a");
    assert_eq!(text_of(&chat(&scripted, user, 5)), "loop-b");
}

#[test]
fn matching_is_seed_independent() {
    let scripted = player(vec![script("agent-1", vec![say_text("scripted")], vec![])]);
    let req = team_request(TWO_OPEN_TASKS_SECTIONS);
    for seed in [0_u64, 42, u64::MAX] {
        let decision = scripted.chat(
            &req,
            &identity("team-agent:agent-1:generalist", 0, seed),
        );
        assert_eq!(text_of(&decision), "scripted");
    }
}

#[test]
fn empty_repeat_past_the_list_falls_through_to_the_arc() {
    let scripted = player(vec![script("agent-1", vec![say_text("r0")], vec![])]);
    let decision = chat(&scripted, "team-agent:agent-1:generalist", 5);
    let calls = decision.message.tool_calls.expect("arc claim");
    assert_eq!(calls[0].name, "claim_task");
}

#[test]
fn explicit_fallthrough_delegates_one_completion() {
    let scripted = player(vec![script(
        "agent-1",
        vec![Response::Fallthrough, say_text("back")],
        vec![],
    )]);
    let decision = chat(&scripted, "team-agent:agent-1:generalist", 0);
    let calls = decision.message.tool_calls.expect("arc claim");
    assert_eq!(calls[0].name, "claim_task");
    assert_eq!(
        text_of(&chat(&scripted, "team-agent:agent-1:generalist", 1)),
        "back"
    );
}

#[test]
fn unmatched_agents_and_unparseable_users_fall_through() {
    let scripted = player(vec![script("meta-*", vec![Response::Yield], vec![])]);
    // A team agent matches no script: arc claims.
    let decision = chat(&scripted, "team-agent:agent-1:generalist", 0);
    assert!(decision.message.tool_calls.is_some());
    // An unparseable user falls through to the arc's plain-client yield.
    let decision = chat(&scripted, "just-a-client", 0);
    assert_eq!(decision.finish, FinishReason::Stop);
    assert_eq!(text_of(&chat(&scripted, "meta-agent:meta-1", 0)), "Yielding.");
}

#[test]
fn finish_defaults_and_overrides() {
    let scripted = player(vec![script(
        "orchestrator",
        vec![
            say_calls(&[("create_task", "{\"title\": \"T\", \"description\": \"D\"}")]),
            say_text("plain"),
            Response::Say(Say {
                text: Some("cut short".to_string()),
                tool_calls: vec![],
                finish: Some(FinishReason::Length),
            }),
            Response::Say(Say {
                text: None,
                tool_calls: vec![],
                finish: None,
            }),
        ],
        vec![],
    )]);
    let user = "orchestrator";
    assert_eq!(
        chat(&scripted, user, 0).finish,
        FinishReason::ToolCalls,
        "non-empty tool_calls defaults to tool_calls"
    );
    assert_eq!(chat(&scripted, user, 1).finish, FinishReason::Stop);
    assert_eq!(chat(&scripted, user, 2).finish, FinishReason::Length);
    let bare = chat(&scripted, user, 3);
    assert_eq!(bare.finish, FinishReason::Stop);
    assert_eq!(bare.message.content, None);
}

#[test]
fn scripted_call_ids_are_deterministic() {
    let scripted = player(vec![script(
        "agent-1",
        vec![say_calls(&[("a", "{}"), ("b", "{}")])],
        vec![],
    )]);
    let decision = chat(&scripted, "team-agent:agent-1:generalist", 0);
    let calls = decision.message.tool_calls.expect("calls");
    assert_eq!(calls[0].id, "call_agent1_0_1");
    assert_eq!(calls[1].id, "call_agent1_0_2");
}

// ---------------------------------------------------------------------------
// The server.
// ---------------------------------------------------------------------------

const FROZEN_UNIX: u64 = 1_752_710_400;

fn chat_request(user: Option<&str>, sections: &str, role: &str) -> ChatRequest {
    let mut req = request(sections, role);
    req.user = user.map(str::to_string);
    req
}

#[test]
fn exact_envelope_determinism_on_a_frozen_clock() {
    let arc = BuiltinArc::new();
    let req = chat_request(Some("orchestrator"), EMPTY_BOARD_SECTIONS, "orchestrator");
    let first = answer_chat(&arc, &req, Some("0"), Some("42"), FROZEN_UNIX)
        .unwrap()
        .unwrap();
    let second = answer_chat(&arc, &req, Some("0"), Some("42"), FROZEN_UNIX)
        .unwrap()
        .unwrap();
    assert_eq!(first, second, "same (user, call_seq, seed) gives the same reply");
    assert_eq!(first.id, "chatcmpl-42-orchestrator-0");
    assert_eq!(first.created, FROZEN_UNIX);
    assert_eq!(first.model, "openteam-mock", "model echoed");
    let third = answer_chat(&arc, &req, Some("1"), Some("42"), FROZEN_UNIX)
        .unwrap()
        .unwrap();
    assert_eq!(third.id, "chatcmpl-42-orchestrator-1");
}

#[test]
fn anonymous_and_unparseable_users_get_stable_ids() {
    let arc = BuiltinArc::new();
    let anonymous = chat_request(None, "hello", "team");
    let reply = answer_chat(&arc, &anonymous, Some("0"), Some("7"), 0)
        .unwrap()
        .unwrap();
    assert_eq!(reply.id, "chatcmpl-7-anon-0", "absent user gives anon");
    let raw = chat_request(Some("my-custom-client"), "hello", "team");
    let reply = answer_chat(&arc, &raw, Some("2"), Some("7"), 0)
        .unwrap()
        .unwrap();
    assert_eq!(
        reply.id, "chatcmpl-7-my-custom-client-2",
        "unparseable user gives the raw user string"
    );
}

#[test]
fn arc_never_emits_an_invalid_call_at_the_wire() {
    let arc = BuiltinArc::new();
    for seed in [0_u64, 1, 42, 999, u64::MAX] {
        for (user, sections, role) in [
            ("orchestrator", EMPTY_BOARD_SECTIONS, "orchestrator"),
            (
                "team-agent:agent-1:generalist",
                TWO_OPEN_TASKS_SECTIONS,
                "team",
            ),
            ("meta-agent:meta-1", META_FRESH_SECTIONS, "meta"),
        ] {
            let req = chat_request(Some(user), sections, role);
            let reply = answer_chat(&arc, &req, Some("0"), Some(&seed.to_string()), 0)
                .unwrap()
                .unwrap();
            assert_eq!(assert_schema_valid(&req, &reply.decision), Ok(()));
        }
    }
}

#[test]
fn a_scenario_scripts_an_invalid_call_inside_a_valid_envelope() {
    let scripted = player(vec![script(
        "agent-1",
        vec![say_calls(&[("not_a_real_verb", "{\"junk\": true}")])],
        vec![],
    )]);
    let req = chat_request(
        Some("team-agent:agent-1:generalist"),
        TWO_OPEN_TASKS_SECTIONS,
        "team",
    );
    let reply = answer_chat(&scripted, &req, Some("0"), Some("42"), FROZEN_UNIX)
        .unwrap()
        .unwrap();
    assert_eq!(reply.id, "chatcmpl-42-agent-1-0");
    let calls = reply.decision.message.tool_calls.expect("scripted call");
    assert_eq!(calls.len(), 1);
    assert_eq!(calls[0].arguments, "{\"junk\":true}");
}

#[test]
fn stream_true_is_rejected_with_param_stream() {
    let mut req = chat_request(Some("orchestrator"), EMPTY_BOARD_SECTIONS, "orchestrator");
    req.stream = Some(true);
    let error = answer_chat(&BuiltinArc::new(), &req, Some("0"), Some("42"), 0).unwrap_err();
    let (status, body) = error.into_parts();
    assert_eq!(status, 400);
    assert_eq!(body.kind, "invalid_request_error");
    assert_eq!(body.param.as_deref(), Some("stream"));
}

#[test]
fn chat_validation_rejections() {
    let arc = BuiltinArc::new();
    let mut req = chat_request(Some("orchestrator"), EMPTY_BOARD_SECTIONS, "orchestrator");
    req.n = Some(2);
    let (status, body) = answer_chat(&arc, &req, None, None, 0)
        .unwrap_err()
        .into_parts();
    assert_eq!(status, 400);
    assert_eq!(body.param.as_deref(), Some("n"));
    assert_eq!(body.message, "n must be 1 for this mock, got 2.");

    let mut req = chat_request(None, "hi", "team");
    req.messages = vec![];
    let (status, body) = answer_chat(&arc, &req, None, None, 0)
        .unwrap_err()
        .into_parts();
    assert_eq!(status, 400);
    assert_eq!(body.param.as_deref(), Some("messages"));

    let (status, body) = MockError::unreadable_chat("missing field `model`").into_parts();
    assert_eq!(status, 400);
    assert_eq!(
        body.message,
        "invalid chat completion request body: missing field `model`"
    );

    let mut req = chat_request(None, "hi", "team");
    req.model = String::new();
    let (status, body) = answer_chat(&arc, &req, None, None, 0)
        .unwrap_err()
        .into_parts();
    assert_eq!(status, 404);
    assert_eq!(body.code.as_deref(), Some("model_not_found"));
}

#[test]
fn unknown_routes_get_the_standard_404_body() {
    let error = MockError::unknown_route("POST", "/v1/does-not-exist");
    assert_eq!(
        error.message(),
        "Unknown request URL: POST /v1/does-not-exist"
    );
    let (status, body) = error.into_parts();
    assert_eq!(status, 404);
    assert_eq!(body.kind, "invalid_request_error");
    assert_eq!(body.param, None);
    assert_eq!(body.code, None);
}

#[test]
fn headers_that_do_not_read_count_as_zero() {
    assert_eq!(header_u64(Some(" 42 ")), 42);
    assert_eq!(header_u64(Some("+7")), 7);
    assert_eq!(header_u64(Some("nope")), 0);
    assert_eq!(header_u64(Some("-1")), 0);
    assert_eq!(header_u64(Some("18446744073709551615")), u64::MAX);
    assert_eq!(header_u64(Some("18446744073709551616")), 0);
    assert_eq!(header_u64(None), 0);
}

fn embedding_request(inputs: &[&str], dimensions: Option<u32>) -> EmbeddingRequest {
    EmbeddingRequest {
        model: "m".to_string(),
        inputs: inputs.iter().map(|s| s.to_string()).collect(),
        dimensions,
    }
}

#[test]
fn embeddings_are_deterministic_and_seed_independent() {
    let req = embedding_request(&["install mise then build"], None);
    let first = answer_embeddings(&CharCountTokenizer, &req).unwrap();
    let second = answer_embeddings(&CharCountTokenizer, &req).unwrap();
    assert_eq!(first, second, "identical text gives the identical vector");
    assert_eq!(first.counts[0].len(), 256, "default dimensions");
    assert_eq!(first.prompt_tokens, 6);
    let multi = answer_embeddings(
        &CharCountTokenizer,
        &embedding_request(&["a", "b", "c"], Some(32)),
    )
    .unwrap();
    assert_eq!(multi.counts.len(), 3);
    assert_eq!(multi.counts[2].len(), 32, "dimensions honored");
    assert_eq!(multi.prompt_tokens, 3);
}

#[test]
fn embeddings_reject_token_arrays_and_empty_requests() {
    let read = |body: &str| read_embeddings(&body.as_bytes().to_vec());
    let (status, body) = read("{\"model\":\"m\",\"input\":[1,2,3]}").unwrap_err().into_parts();
    assert_eq!(status, 400);
    assert_eq!(body.param.as_deref(), Some("input"));
    assert!(body.message.contains("token-array"));
    for fine in [
        "{\"input\":\"x\"}",
        "{\"input\":[\"x\"]}",
        "{\"input\":[]}",
        "{}",
    ] {
        assert_eq!(read(fine).unwrap().render(), fine, "{fine}");
    }
    assert!(read("{\"input\":[[1]]}").is_err());
    let (status, body) = read("{\"input\":").unwrap_err().into_parts();
    assert_eq!(status, 400);
    assert_eq!(
        body.message,
        "invalid embeddings request body: EOF while parsing a value at line 1 column 9"
    );
    assert_eq!(body.param, None);
    assert!(read_embeddings(&vec![b'"', 0xff, b'"']).is_err());
    assert_eq!(
        check_embeddings(Err("eof".to_owned())).unwrap_err().message(),
        "invalid embeddings request body: eof"
    );

    let refused = |req: EmbeddingRequest| {
        answer_embeddings(&CharCountTokenizer, &req)
            .unwrap_err()
            .into_parts()
    };
    let (status, body) = refused(embedding_request(&["x"], Some(0)));
    assert_eq!(status, 400);
    assert_eq!(body.param.as_deref(), Some("dimensions"));
    let (_, body) = refused(embedding_request(&[], None));
    assert_eq!(body.param.as_deref(), Some("input"));
    let mut nameless = embedding_request(&["x"], None);
    nameless.model = String::new();
    assert_eq!(refused(nameless).0, 404);
    assert_eq!(
        MockError::malformed_embeddings("unknown field `stray`").message(),
        "invalid embeddings request: unknown field `stray`"
    );
    assert_eq!(
        MockError::unreadable_embeddings("eof").message(),
        "invalid embeddings request body: eof"
    );
}

#[test]
fn a_crowd_that_cannot_be_counted_gets_no_reply() {
    let arc = BuiltinArc::new();
    let crowd = "## Board digest\nrun-health: done 0/0 · agents 4294967295W/1I/0S · x";
    let mut req = orchestrator_request(crowd);
    let lead = identity("orchestrator", 0, 42);
    assert!(!arc.can_answer(&req, &lead));
    assert_eq!(RenderedWorld::parse(&req).pool(), None);
    req.user = Some("orchestrator".to_owned());
    assert_eq!(answer_chat(&arc, &req, None, None, 0), Ok(None));
    assert!(arc.can_answer(&orchestrator_request(EMPTY_BOARD_SECTIONS), &lead));
    // Nobody else counts the crowd, and a script does not either.
    assert!(arc.can_answer(&req, &identity("meta-agent:meta-1", 0, 42)));
    let scripted = player(vec![script("orchestrator", vec![Response::Yield], vec![])]);
    assert!(scripted.can_answer(&req, &lead));
    assert!(!scripted.can_answer(&req, &identity("orchestrator", 1, 42)));
    assert!(Selector::TeamWildcard.matches("agent-9", Role::TeamAgent));
    assert!(!Selector::TeamWildcard.matches("meta-9", Role::MetaAgent));
}

#[test]
fn a_plain_greeting_is_acknowledged() {
    let req = ChatRequest {
        model: "openteam-mock".into(),
        messages: vec![ChatMessage::User {
            content: "hello".into(),
        }],
        tools: vec![],
        tool_choice: None,
        parallel_tool_calls: None,
        user: None,
        stream: None,
        n: None,
    };
    let reply = answer_chat(&BuiltinArc::new(), &req, None, None, 0)
        .unwrap()
        .unwrap();
    assert_eq!(reply.id, "chatcmpl-0-anon-0");
    assert_eq!(
        reply.decision.message.content.as_deref(),
        Some("Understood; proceeding.")
    );
}

#[test]
fn tokens_are_those_of_texts_and_calls() {
    let decision = ChatDecision {
        message: ResponseMessage {
            content: Some("12345".to_owned()),
            tool_calls: Some(vec![ToolCall {
                id: "uncounted".to_owned(),
                name: "abcd".to_owned(),
                arguments: "{}".to_owned(),
            }]),
        },
        finish: FinishReason::ToolCalls,
    };
    let messages = vec![
        ChatMessage::System {
            content: "123456789".to_owned(),
        },
        ChatMessage::User {
            content: String::new(),
        },
        ChatMessage::Assistant {
            content: None,
            tool_calls: Some(vec![ToolCall {
                id: "uncounted".to_owned(),
                name: "a".to_owned(),
                arguments: "12345".to_owned(),
            }]),
        },
        ChatMessage::Tool {
            content: "1234".to_owned(),
            tool_call_id: "uncounted".to_owned(),
        },
    ];
    let usage = chat_usage(&CharCountTokenizer, &messages, &decision).unwrap();
    assert_eq!((usage.prompt, usage.completion, usage.total), (7, 4, 11));
}

#[test]
fn replies_without_calls_have_words() {
    let mut req = team_request(TWO_OPEN_TASKS_SECTIONS);
    push_turn_local(&mut req, "sleep", "{}", "{\"status\":\"ok\",\"result\":{}}");
    for seed in sweep_seeds() {
        for user in ["orchestrator", "team-agent:agent-1:generalist", "meta-agent:meta-1", "x", ""] {
            let decision = arc_chat(user, seed, 1, &req);
            assert!(decision.message.tool_calls.is_none());
            assert_eq!(decision.finish, FinishReason::Stop);
            assert!(!decision.message.content.unwrap().is_empty());
        }
    }
}
