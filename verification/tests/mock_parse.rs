use openteam::json::Json;
use openteam::mock::parse::{AgentStateLine, TaskState};
use openteam::mock::rendered::{RenderedWorld, ToolStatus};
use openteam::tools::ToolDef;
use openteam::wire::{ChatMessage, ChatRequest, ToolCall, ToolChoice};

fn user_request(sections: &str) -> ChatRequest {
    ChatRequest {
        model: "openteam-mock".into(),
        messages: vec![
            ChatMessage::System {
                content: "skeleton".into(),
            },
            ChatMessage::User {
                content: sections.into(),
            },
        ],
        tools: vec![],
        tool_choice: None,
        parallel_tool_calls: None,
        user: None,
        stream: None,
        n: None,
    }
}

fn json(text: &str) -> Json {
    Json::parse(text).unwrap()
}

#[test]
fn board_digest_lines_parse_per_the_pinned_grammar() {
    let world = RenderedWorld::parse(&user_request(
        "## Board digest\n\
         - task 1 [Claimed by agent-1] team:t1  \"Draft the setup section\"\n\
         - task 2 [Done] team:t1  \"Draft the architecture overview\"\n\
         - task 3 [Open] team:-  \"Loose end\"\n\
         - task 4 [Cancelled] team:t1  \"Dropped\"\n\
         run-health: done 1/4 · agents 1W/2I/0S · mailbox depth 0 (max 1) · ticks-since-done 0",
    ));
    let board = world.board.expect("board section present");
    assert_eq!(board.count(), 4);
    assert_eq!(
        board.tasks[0].state,
        TaskState::Claimed {
            by: "agent-1".into()
        }
    );
    assert_eq!(board.tasks[0].team.as_deref(), Some("t1"));
    assert_eq!(board.tasks[0].title, "Draft the setup section");
    assert_eq!(board.tasks[1].state, TaskState::Done);
    assert_eq!(board.tasks[2].state, TaskState::Open);
    assert_eq!(board.tasks[2].team, None, "`-` is the untagged marker");
    assert_eq!(board.tasks[3].state, TaskState::Cancelled);
    assert_eq!(board.run_health_agents, Some((1, 2, 0)));
    assert!(!board.all_terminal());
    assert_eq!(board.lowest_open().map(|t| t.id), Some(3));
    assert_eq!(board.claimants(), vec!["agent-1"]);
    assert_eq!(board.dominant_team().as_deref(), Some("t1"));
}

#[test]
fn empty_board_placeholder_parses_as_zero_tasks() {
    let world = RenderedWorld::parse(&user_request(
        "## Board digest\n(empty)\nrun-health: done 0/0 · agents 0W/3I/0S · mailbox depth 0 (max 0) · ticks-since-done 0",
    ));
    let board = world.board.expect("board section present");
    assert_eq!(board.count(), 0);
    assert_eq!(board.run_health_agents, Some((0, 3, 0)));
}

#[test]
fn claimed_task_presence_and_id() {
    let world = RenderedWorld::parse(&user_request(
        "## Claimed task\ntask 2 — \"Draft the architecture overview\" (team t1)",
    ));
    let claimed = world.claimed.expect("claimed present means Working");
    assert_eq!(claimed.id, 2);
    assert_eq!(claimed.title, "Draft the architecture overview");
    assert_eq!(claimed.team.as_deref(), Some("t1"));

    let idle = RenderedWorld::parse(&user_request("## Claimed task\n(none)"));
    assert!(idle.claimed.is_none(), "placeholder means Idle");

    let untagged =
        RenderedWorld::parse(&user_request("## Claimed task\ntask 7 — \"X\" (team -)"));
    assert_eq!(untagged.claimed.expect("present").team, None);
}

#[test]
fn recent_activity_counts_work_actions_only() {
    let world = RenderedWorld::parse(&user_request(
        "## Recent activity\n\
         - [turn 4] claim_task{task:1} -> ok\n\
         - [turn 6] write_knowledge{\"Setup: install mise…\"} -> ok\n\
         - [turn 8] post_message{team:t1, …} -> ok\n\
         - [turn 9] search_knowledge{\"deps\"} -> rejected\n\
         - [turn 10] release_task{} -> ok",
    ));
    let window = world.recent_activity.expect("section present");
    assert_eq!(window.work_actions, 3, "claim/release are not work-actions");
    assert!(!window.degraded);
}

#[test]
fn degradation_marker_is_read_from_the_first_content_line() {
    let world = RenderedWorld::parse(&user_request(
        "## Recent activity\n(degraded: 2 dropped)\n- [turn 9] write_knowledge{…} -> ok",
    ));
    let window = world.recent_activity.expect("section present");
    assert!(window.degraded);
    assert_eq!(window.work_actions, 1);
}

#[test]
fn fresh_messages_parse() {
    let world = RenderedWorld::parse(&user_request(
        "## Fresh messages\n\
         - msg 1 from orchestrator (direct): \"Prioritize the setup section.\"\n\
         - msg 3 from agent-1 (team:t1): \"Setup section drafted.\"",
    ));
    assert_eq!(world.fresh_messages.len(), 2);
    assert_eq!(world.fresh_messages[0].id, 1);
    assert_eq!(world.fresh_messages[0].from, "orchestrator");
    assert_eq!(world.fresh_messages[0].kind, "direct");
    assert_eq!(world.fresh_messages[1].kind, "team:t1");
}

#[test]
fn directive_lines_parse_kind_and_args() {
    let world = RenderedWorld::parse(&user_request(
        "## Directives\n\
         - directive 1 [judgment, pending] propose_respecialize{agent:agent-3, specialty:doc-curator} from meta-1\n\
         - directive 2 [judgment, pending] propose_reallocate{task:2, reason:\"stuck, needs a move\"} from meta-1\n\
         - directive 3 [judgment, pending] propose_rebalance{team:t1, members:[agent-1 agent-2]} from meta-1",
    ));
    assert_eq!(world.directives.len(), 3);
    let first = &world.directives[0];
    assert_eq!(first.id, 1);
    assert_eq!(first.tier, "judgment");
    assert!(first.is_pending());
    assert_eq!(first.kind, "propose_respecialize");
    assert_eq!(first.args.get("agent"), Some("agent-3"));
    assert_eq!(first.args.get("specialty"), Some("doc-curator"));
    assert_eq!(first.from, "meta-1");
    // Quoted values keep their embedded comma; quotes are stripped.
    assert_eq!(
        world.directives[1].args.get("reason"),
        Some("stuck, needs a move")
    );
    assert_eq!(world.directives[1].args.get("task"), Some("2"));
    assert_eq!(
        world.directives[2].args.get_list("members"),
        Some(vec!["agent-1".to_owned(), "agent-2".to_owned()])
    );
}

#[test]
fn directive_outcomes_read_per_tier() {
    let none = RenderedWorld::parse(&user_request("## Directive outcomes\n(none issued)"));
    let outcomes = none.directive_outcomes.expect("section present");
    assert!(!outcomes.judgment_used && !outcomes.mechanical_used);

    let both = RenderedWorld::parse(&user_request(
        "## Directive outcomes\n\
         - directive 1 [judgment] propose_respecialize{agent:agent-3, specialty:doc-curator} — fulfilled by orchestrator\n\
         - directive 2 [mechanical] set_parallelism{target:2} — fulfilled by runtime",
    ));
    let outcomes = both.directive_outcomes.expect("section present");
    assert!(outcomes.judgment_used && outcomes.mechanical_used);
}

#[test]
fn utilization_lines_parse_state_and_specialty() {
    let world = RenderedWorld::parse(&user_request(
        "## Metrics digest\n\
         throughput: 1 task_completed / 15 EventIds · latency: work median 6 EventIds\n\
         utilization:\n\
         \u{20}\u{20}- agent-1: Working (task 1), generalist\n\
         \u{20}\u{20}- agent-2: Idle, generalist (idle 0)\n\
         \u{20}\u{20}- agent-3: Asleep, doc-curator\n\
         mailbox: depth 0, max 1, oldest-pending-age 0",
    ));
    assert_eq!(world.utilization.len(), 3);
    assert_eq!(
        world.utilization[0].state,
        AgentStateLine::Working { task: 1 }
    );
    assert_eq!(world.utilization[0].specialty, "generalist");
    assert_eq!(world.utilization[1].state, AgentStateLine::Idle);
    assert_eq!(world.utilization[1].specialty, "generalist");
    assert_eq!(world.utilization[2].state, AgentStateLine::Asleep);
    assert_eq!(world.utilization[2].specialty, "doc-curator");
}

#[test]
fn turn_local_reads_statuses_and_verbs() {
    let mut req = user_request("## Goal\nX");
    req.messages.push(ChatMessage::Assistant {
        content: None,
        tool_calls: Some(vec![ToolCall {
            id: "call_1".into(),
            name: "claim_task".into(),
            arguments: "{\"task\":1}".into(),
        }]),
    });
    req.messages.push(ChatMessage::Tool {
        content: "{\"status\":\"rejected\",\"code\":\"task_not_open\",\"message\":\"…\"}".into(),
        tool_call_id: "call_1".into(),
    });
    let world = RenderedWorld::parse(&req);
    assert!(world.turn_local.acted());
    assert_eq!(world.turn_local.called_verbs, vec!["claim_task"]);
    assert_eq!(world.turn_local.statuses, vec![ToolStatus::Rejected]);
}

#[test]
fn absent_sections_are_tolerated() {
    let world = RenderedWorld::parse(&user_request("hello, plain client"));
    assert!(world.board.is_none());
    assert!(world.claimed.is_none());
    assert!(world.recent_activity.is_none());
    assert!(world.directives.is_empty());
    assert!(!world.turn_local.acted());
}

#[test]
fn tools_index_and_args_fit() {
    let mut req = user_request("## Goal\nX");
    req.tools = vec![ToolDef {
        name: "claim_task".into(),
        description: String::new(),
        parameters: Some(json(
            r#"{
                "type": "object",
                "properties": {"task": {"type": "integer"}},
                "required": ["task"],
                "additionalProperties": false
            }"#,
        )),
        strict: false,
    }];
    let world = RenderedWorld::parse(&req);
    assert!(world.tools.available("claim_task"));
    assert!(!world.tools.available("finish_run"));
    assert!(world.tools.args_fit("claim_task", &json("{\"task\": 1}")));
    assert!(
        !world.tools.args_fit("claim_task", &json("{}")),
        "missing required key"
    );
    assert!(
        !world
            .tools
            .args_fit("claim_task", &json("{\"task\": 1, \"x\": 2}")),
        "stray key"
    );
    assert!(!world.tools.args_fit("claim_task", &json("[1]")));
}

#[test]
fn tool_choice_none_suppresses_calls() {
    let mut req = user_request("## Goal\nX");
    req.tools = vec![ToolDef {
        name: "sleep".into(),
        description: String::new(),
        parameters: None,
        strict: false,
    }];
    req.tool_choice = Some(ToolChoice::Never);
    let world = RenderedWorld::parse(&req);
    assert!(!world.tools.available("sleep"));
    req.tool_choice = None;
    let world = RenderedWorld::parse(&req);
    assert!(world.tools.available("sleep"));
    assert!(world.tools.args_fit("sleep", &json("{}")));
    assert!(!world.tools.args_fit("sleep", &json("{\"x\":1}")));
}

#[test]
fn of_tools_with_one_name_the_last_counts() {
    let mut req = user_request("## Goal\nX");
    for schema in ["{\"required\":[\"a\"]}", "{\"required\":[\"b\"]}"] {
        req.tools.push(ToolDef {
            name: "x".into(),
            description: String::new(),
            parameters: Some(json(schema)),
            strict: false,
        });
    }
    let world = RenderedWorld::parse(&req);
    assert!(world.tools.args_fit("x", &json("{\"b\":1}")));
    assert!(!world.tools.args_fit("x", &json("{\"a\":1}")));
}

#[test]
fn the_most_common_tag_leads_and_ties_go_to_the_last() {
    let world = RenderedWorld::parse(&user_request(
        "## Board digest\n\
         - task 1 [Open] team:beta  \"a\"\n\
         - task 2 [Open] team:alpha  \"b\"\n\
         - task 3 [Open] team:alpha  \"c\"\n\
         - task 4 [Open] team:beta  \"d\"\n\
         - task x [Open] team:zeta  \"not a line\"\n\
         - task 5 [Lost] team:zeta  \"not a state\"",
    ));
    let board = world.board.unwrap();
    assert_eq!(board.count(), 4);
    assert_eq!(board.dominant_team().as_deref(), Some("beta"));
    assert_eq!(board.non_terminal().len(), 4);
    assert!(board.done_titles().is_empty());
}

#[test]
fn later_sections_replace_earlier_ones() {
    let world = RenderedWorld::parse(&user_request(
        "preamble\n## Goal\n\nfirst\n## Other\nx\n## Goal\nsecond  \nmore",
    ));
    assert_eq!(world.goal.as_deref(), Some("second"));
}
