use openteam::agent::Role;
use openteam::context::{
    assemble, AssembleView, CharCountTokenizer, ContextPolicy, SectionKind, SpecialtyProfile,
};

fn agentless_view() -> AssembleView {
    AssembleView {
        goal: "Write a short onboarding guide for new contributors.".into(),
        ..AssembleView::default()
    }
}

#[test]
fn orchestrator_empty_world_matches_transcript_pair_a() {
    let mut view = agentless_view();
    view.run_health = Some(
        "run-health: done 0/0 · agents 0W/3I/0S · mailbox depth 0 (max 0) · ticks-since-done 0"
            .into(),
    );
    let prompt = assemble(
        &ContextPolicy::orchestrator(),
        Role::Orchestrator,
        None,
        &view,
        &CharCountTokenizer,
    );
    let expected = "## Goal\nWrite a short onboarding guide for new contributors.\n\n\
                    ## Board digest\n(empty)\nrun-health: done 0/0 · agents 0W/3I/0S · mailbox depth 0 (max 0) · ticks-since-done 0\n\n\
                    ## Knowledge retrievals\n(none)\n\n\
                    ## Fresh messages\n(none)\n\n\
                    ## Directives\n(none)";
    assert_eq!(prompt.user, expected);
    assert!(prompt.degraded.is_empty());
    assert_eq!(prompt.drained, 0);
    assert!(prompt.system.starts_with("You are the orchestrator"));
}

#[test]
fn team_agent_open_board_matches_transcript_pair_b() {
    let mut view = agentless_view();
    view.goal = "Write a short onboarding guide for new contributors.".into();
    view.board_lines = vec![
        "- task 1 [Open] team:t1  \"Draft the setup section\"".into(),
        "- task 2 [Open] team:t1  \"Draft the architecture overview\"".into(),
    ];
    let prompt = assemble(
        &ContextPolicy::team_agent(),
        Role::TeamAgent,
        Some(&SpecialtyProfile::generalist()),
        &view,
        &CharCountTokenizer,
    );
    let expected = "## Goal\nWrite a short onboarding guide for new contributors.\n\n\
                    ## Board digest\n- task 1 [Open] team:t1  \"Draft the setup section\"\n- task 2 [Open] team:t1  \"Draft the architecture overview\"\n\n\
                    ## Claimed task\n(none)\n\n\
                    ## Recent activity\n(none)\n\n\
                    ## Knowledge retrievals\n(none)\n\n\
                    ## Fresh messages\n(none)";
    assert_eq!(prompt.user, expected);
    assert!(prompt.system.contains("Specialty: generalist"));
}

#[test]
fn meta_agent_renders_its_four_slots_in_order() {
    let mut view = agentless_view();
    view.metrics_digest = Some("throughput: 0 task_completed / 3 EventIds".into());
    let prompt = assemble(
        &ContextPolicy::meta_agent(),
        Role::MetaAgent,
        None,
        &view,
        &CharCountTokenizer,
    );
    let headers: Vec<&str> = prompt
        .user
        .lines()
        .filter(|l| l.starts_with("## "))
        .collect();
    assert_eq!(
        headers,
        vec![
            "## Goal",
            "## Metrics digest",
            "## Directive outcomes",
            "## Recent events"
        ]
    );
    assert!(prompt.user.contains("## Directive outcomes\n(none issued)"));
}

#[test]
fn goal_and_directives_never_drop_under_a_tiny_pool() {
    let mut view = agentless_view();
    view.directive_lines = vec![
        "- directive 1 [judgment, pending] propose_respecialize{agent:agent-3, specialty:doc-curator} from meta-1".into(),
    ];
    view.board_lines = vec!["- task 1 [Open] team:t1  \"A task\"".into()];
    let mut policy = ContextPolicy::orchestrator();
    policy.pool = Some(5); // absurdly tiny
    let prompt = assemble(
        &policy,
        Role::Orchestrator,
        None,
        &view,
        &CharCountTokenizer,
    );
    assert!(prompt.user.contains("onboarding guide"), "goal survives");
    assert!(
        prompt.user.contains("propose_respecialize"),
        "directives survive"
    );
}

#[test]
fn meta_directive_outcomes_never_drop_under_a_tiny_pool() {
    let mut view = agentless_view();
    view.metrics_digest = Some(
        "throughput: 0 task_completed / 40 EventIds · latency: work n/a\n\
         utilization:\n  - agent-1: Idle, generalist (idle 12)"
            .into(),
    );
    view.outcome_lines = vec![
        "- directive 1 [mechanical] set_parallelism{target:2} — fulfilled by runtime".into(),
        "- directive 2 [judgment] propose_respecialize{agent:agent-3, specialty:doc-curator} — pending".into(),
    ];
    view.recent_event_lines = vec!["- event 7 directive_issued (meta-1)".into()];
    let mut policy = ContextPolicy::meta_agent();
    policy.pool = Some(5); // absurdly tiny (the OPENTEAM_ASSEMBLY_BUDGET knob)
    let prompt = assemble(&policy, Role::MetaAgent, None, &view, &CharCountTokenizer);
    assert!(
        prompt.user.contains("set_parallelism"),
        "mechanical outcome survives"
    );
    assert!(
        prompt.user.contains("propose_respecialize"),
        "judgment outcome survives"
    );
    assert!(
        !prompt
            .degraded
            .iter()
            .any(|d| d.kind == "directive_outcomes"),
        "the outcomes slot never records degradation"
    );
}

#[test]
fn board_digest_sheds_terminal_tail_first() {
    let mut view = agentless_view();
    view.board_lines = vec![
        "- task 1 [Open] team:t1  \"Alpha\"".into(),
        "- task 2 [Done] team:t1  \"Beta\"".into(),
        "- task 3 [Done] team:t1  \"Gamma\"".into(),
    ];
    let mut policy = ContextPolicy::team_agent();
    for section_spec in &mut policy.sections {
        if section_spec.kind == SectionKind::BoardDigest {
            // Room for roughly one line.
            section_spec.budget = 12;
        }
    }
    let prompt = assemble(
        &policy,
        Role::TeamAgent,
        Some(&SpecialtyProfile::generalist()),
        &view,
        &CharCountTokenizer,
    );
    assert!(prompt.user.contains("Alpha"), "open task survives");
    assert!(!prompt.user.contains("Gamma"), "terminal tail shed");
    let record = prompt
        .degraded
        .iter()
        .find(|d| d.kind == "board_digest")
        .expect("degradation recorded");
    assert!(record.dropped_items >= 1);
}

#[test]
fn titles_do_not_make_a_task_terminal() {
    let mut view = agentless_view();
    view.board_lines = vec![
        "- task 1 [Open] team:-  \"Fix the [Done] label\"".into(),
        "- task 2 [Open] team:-  \"B\"".into(),
    ];
    let mut policy = ContextPolicy::team_agent();
    for section_spec in &mut policy.sections {
        if section_spec.kind == SectionKind::BoardDigest {
            section_spec.budget = 13;
        }
    }
    let prompt = assemble(
        &policy,
        Role::TeamAgent,
        Some(&SpecialtyProfile::generalist()),
        &view,
        &CharCountTokenizer,
    );
    assert!(prompt.user.contains("- task 1 [Open] team:-  \"Fix the [Done] label\""));
    assert!(!prompt.user.contains("- task 2"), "the last line goes, since none is terminal");
    let record = prompt
        .degraded
        .iter()
        .find(|d| d.kind == "board_digest")
        .expect("degradation recorded");
    assert_eq!(record.dropped_items, 1);
}

#[test]
fn retrievals_drop_lowest_cosine_first() {
    let mut view = agentless_view();
    view.retrievals = vec![
        "- entry 1 (Note by agent-1, cos 0.90): \"top hit\"".into(),
        "- entry 2 (Note by agent-2, cos 0.20): \"low hit\"".into(),
    ];
    let mut policy = ContextPolicy::orchestrator();
    for section_spec in &mut policy.sections {
        if section_spec.kind == SectionKind::KnowledgeRetrievals {
            section_spec.budget = 13;
        }
    }
    let prompt = assemble(
        &policy,
        Role::Orchestrator,
        None,
        &view,
        &CharCountTokenizer,
    );
    assert!(prompt.user.contains("top hit"));
    assert!(!prompt.user.contains("low hit"));
}

#[test]
fn fresh_messages_carry_over_with_marker_and_head_of_line_guarantee() {
    let mut view = agentless_view();
    view.queued_messages = vec![
        "- msg 1 from orchestrator (direct): \"a long oldest message that alone busts the budget\"".into(),
        "- msg 2 from orchestrator (direct): \"second\"".into(),
        "- msg 3 from orchestrator (direct): \"third\"".into(),
    ];
    let mut policy = ContextPolicy::team_agent();
    for section_spec in &mut policy.sections {
        if section_spec.kind == SectionKind::FreshMessages {
            section_spec.budget = 4;
        }
    }
    let prompt = assemble(
        &policy,
        Role::TeamAgent,
        Some(&SpecialtyProfile::generalist()),
        &view,
        &CharCountTokenizer,
    );
    assert_eq!(prompt.drained, 1, "at least the single oldest delivers");
    assert!(prompt.user.contains("(degraded: 2 dropped)"));
    assert!(prompt.user.contains("msg 1"));
    assert!(!prompt.user.contains("msg 3"));
    let record = prompt
        .degraded
        .iter()
        .find(|d| d.kind == "fresh_messages")
        .expect("degradation recorded");
    assert_eq!(record.dropped_items, 2);
}

#[test]
fn recent_activity_drops_oldest_with_marker() {
    let mut view = agentless_view();
    view.claimed_line = Some("task 1 — \"Alpha\" (team t1)".into());
    view.window_lines = vec![
        "- [turn 1] claim_task{task:1} -> ok".into(),
        "- [turn 2] write_knowledge{\"note one\"} -> ok".into(),
        "- [turn 3] write_knowledge{\"note two\"} -> ok".into(),
    ];
    let mut policy = ContextPolicy::team_agent();
    for section_spec in &mut policy.sections {
        if section_spec.kind == SectionKind::RecentActivity {
            section_spec.budget = 12;
        }
    }
    let prompt = assemble(
        &policy,
        Role::TeamAgent,
        Some(&SpecialtyProfile::generalist()),
        &view,
        &CharCountTokenizer,
    );
    assert!(prompt.user.contains("(degraded:"));
    assert!(!prompt.user.contains("[turn 1]"), "oldest dropped");
    assert!(prompt.user.contains("[turn 3]"), "newest kept");
}

#[test]
fn no_degradation_records_on_a_roomy_happy_path() {
    let mut view = agentless_view();
    view.board_lines = vec!["- task 1 [Open] team:t1  \"Alpha\"".into()];
    view.queued_messages = vec!["- msg 1 from orchestrator (direct): \"hello\"".into()];
    let prompt = assemble(
        &ContextPolicy::team_agent(),
        Role::TeamAgent,
        Some(&SpecialtyProfile::generalist()),
        &view,
        &CharCountTokenizer,
    );
    assert!(prompt.degraded.is_empty());
    assert_eq!(prompt.drained, 1);
    assert!(!prompt.user.contains("(degraded"));
}
