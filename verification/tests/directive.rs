use openteam::agent::AgentId;
use openteam::directive::{Directive, DirectiveKind, DirectiveState, DirectiveTier};
use openteam::ids::DirectiveId;
use openteam::json::Json;
use openteam::mock::rendered::RenderedWorld;
use openteam::wire::{ChatMessage, ChatRequest};

fn json(text: &str) -> Json {
    Json::parse(text).unwrap()
}

fn respecialize_directive(state: DirectiveState) -> Directive {
    Directive {
        id: DirectiveId::new(1),
        tier: DirectiveTier::Judgment,
        kind: DirectiveKind::ProposeRespecialize,
        args: json(r#"{"agent": "agent-3", "specialty": "doc-curator"}"#),
        from: AgentId::meta(1),
        state,
    }
}

#[test]
fn tiers_and_kinds_have_their_names() {
    assert_eq!(DirectiveTier::Judgment.as_str(), "judgment");
    assert_eq!(DirectiveTier::Mechanical.as_str(), "mechanical");
    assert_eq!(DirectiveKind::ProposeRespecialize.as_str(), "propose_respecialize");
    assert_eq!(DirectiveKind::SetParallelism.as_str(), "set_parallelism");
    assert_eq!(
        DirectiveKind::SetParallelism.tier(),
        DirectiveTier::Mechanical
    );
    assert_eq!(
        DirectiveKind::ProposeRebalance.tier(),
        DirectiveTier::Judgment
    );
}

#[test]
fn directives_line_matches_the_transcript() {
    let directive = respecialize_directive(DirectiveState::Pending);
    assert_eq!(
        directive.directives_line(),
        "- directive 1 [judgment, pending] propose_respecialize{agent:agent-3, specialty:doc-curator} from meta-1"
    );
}

#[test]
fn outcomes_line_covers_all_three_outcomes() {
    assert_eq!(
        respecialize_directive(DirectiveState::Pending).outcomes_line(),
        "- directive 1 [judgment] propose_respecialize{agent:agent-3, specialty:doc-curator} — pending"
    );
    assert_eq!(
        respecialize_directive(DirectiveState::Fulfilled {
            by: AgentId::orchestrator()
        })
        .outcomes_line(),
        "- directive 1 [judgment] propose_respecialize{agent:agent-3, specialty:doc-curator} — fulfilled by orchestrator"
    );
    assert_eq!(
        respecialize_directive(DirectiveState::Declined {
            by: AgentId::orchestrator(),
            reason: "already specialized".into()
        })
        .outcomes_line(),
        "- directive 1 [judgment] propose_respecialize{agent:agent-3, specialty:doc-curator} — declined by orchestrator: \"already specialized\""
    );
}

#[test]
fn args_render_in_canonical_order_with_quoting_and_arrays() {
    let reallocate = Directive {
        id: DirectiveId::new(2),
        tier: DirectiveTier::Judgment,
        kind: DirectiveKind::ProposeReallocate,
        args: json(r#"{"reason": "stuck too long", "task": 2}"#),
        from: AgentId::meta(1),
        state: DirectiveState::Pending,
    };
    assert_eq!(
        reallocate.outcomes_line(),
        "- directive 2 [judgment] propose_reallocate{task:2, reason:\"stuck too long\"} — pending"
    );

    let rebalance = Directive {
        id: DirectiveId::new(3),
        tier: DirectiveTier::Judgment,
        kind: DirectiveKind::ProposeRebalance,
        args: json(r#"{"members": ["agent-1", "agent-2"], "team": "t1"}"#),
        from: AgentId::meta(1),
        state: DirectiveState::Pending,
    };
    assert_eq!(
        rebalance.directives_line(),
        "- directive 3 [judgment, pending] propose_rebalance{team:t1, members:[agent-1 agent-2]} from meta-1"
    );

    // Mechanical int arg, bare.
    let parallelism = Directive {
        id: DirectiveId::new(2),
        tier: DirectiveTier::Mechanical,
        kind: DirectiveKind::SetParallelism,
        args: json(r#"{"target": 2}"#),
        from: AgentId::meta(1),
        state: DirectiveState::Fulfilled {
            by: AgentId::meta(1),
        },
    };
    assert_eq!(
        parallelism.directives_line(),
        "- directive 2 [mechanical, fulfilled] set_parallelism{target:2} from meta-1"
    );
}

#[test]
fn values_show_bare_quoted_and_nested() {
    let shown = |text: &str| openteam::directive::render_value(&json(text));
    assert_eq!(shown("\"agent-3\""), "agent-3");
    assert_eq!(shown("\"two words\""), "\"two words\"");
    assert_eq!(shown("\"\""), "\"\"");
    assert_eq!(shown("[\"a\", \"b c\", 3]"), "[a \"b c\" 3]");
    assert_eq!(shown("{\"k\": true, \"l\": null}"), "{k:true, l:null}");
}

#[test]
fn directive_lines_read_back() {
    let read = |kind: DirectiveKind, args: &str| {
        let directive = Directive {
            id: DirectiveId::new(7),
            tier: kind.tier(),
            kind,
            args: Json::parse(args).unwrap(),
            from: AgentId::meta(2),
            state: DirectiveState::Pending,
        };
        let shown = format!("## Directives\n{}", directive.directives_line());
        let request = ChatRequest {
            model: "m".into(),
            messages: vec![ChatMessage::User { content: shown }],
            tools: vec![],
            tool_choice: None,
            parallel_tool_calls: None,
            user: None,
            stream: None,
            n: None,
        };
        let mut lines = RenderedWorld::parse(&request).directives;
        assert!(lines.len() <= 1);
        lines.pop()
    };
    let line = read(
        DirectiveKind::ProposeReallocate,
        "{\"reason\": \"stuck: no news, [three] {turns}\", \"task\": 12}",
    )
    .unwrap();
    assert_eq!((line.id, line.tier.as_str(), line.state.as_str()), (7, "judgment", "pending"));
    assert_eq!((line.kind.as_str(), line.from.as_str()), ("propose_reallocate", "meta-2"));
    assert_eq!(line.args.get("task"), Some("12"));
    assert_eq!(line.args.get("reason"), Some("stuck: no news, [three] {turns}"));
    assert_eq!(line.args.pairs[0].0, "task");
    let line = read(
        DirectiveKind::ProposeRebalance,
        "{\"team\": \"t1\", \"members\": [\"agent-1\", \"agent-2\"]}",
    )
    .unwrap();
    assert_eq!(line.args.get("members"), Some("[agent-1 agent-2]"));
    // A double quote inside a text is not escaped, so the line does not read back.
    let quoting = read(
        DirectiveKind::ProposeReallocate,
        "{\"task\": 1, \"reason\": \"a\\\", b:c\"}",
    );
    assert!(quoting.is_none());
}
