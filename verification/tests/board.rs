use openteam::agent::AgentId;
use openteam::board::{Board, TaskState};
use openteam::ids::{EventId, KnowledgeEntryId, TaskId, TeamId};

fn t(tag: &str) -> TeamId {
    TeamId::parse(tag).unwrap()
}

/// A board with team t1 = {agent-1, agent-2} and two tasks: task 1
/// tagged t1, task 2 untagged.
fn seeded_board() -> Board {
    let mut board = Board::new();
    board
        .form_team(t("t1"), vec![AgentId::team(1), AgentId::team(2)])
        .unwrap();
    board
        .create_task(
            TaskId::new(1),
            "Draft the setup section".to_string(),
            "Install + build/test steps for a new contributor.".to_string(),
            AgentId::orchestrator(),
            EventId::new(2),
            Some(t("t1")),
        )
        .unwrap();
    board
        .create_task(
            TaskId::new(2),
            "Draft the architecture overview".to_string(),
            "One-paragraph crate map.".to_string(),
            AgentId::orchestrator(),
            EventId::new(3),
            None,
        )
        .unwrap();
    board
}

#[test]
fn first_claim_wins_and_the_loser_is_rejected_task_not_open() {
    let mut board = seeded_board();
    board.claim(&AgentId::team(1), TaskId::new(1)).unwrap();

    let lost = board.claim(&AgentId::team(2), TaskId::new(1)).unwrap_err();
    assert_eq!(lost.code, "task_not_open");
    assert_eq!(lost.message, "task 1 is not Open (Claimed by agent-1)");
}

#[test]
fn at_most_one_claimed_task_per_agent() {
    let mut board = seeded_board();
    board.claim(&AgentId::team(1), TaskId::new(1)).unwrap();
    let second = board.claim(&AgentId::team(1), TaskId::new(2)).unwrap_err();
    assert_eq!(second.code, "already_claimed_other");
}

#[test]
fn eligibility_is_team_membership_checked_at_claim_time() {
    let mut board = seeded_board();
    // agent-3 is not in t1: task 1 rejected, untagged task 2 fine.
    let rejected = board.claim(&AgentId::team(3), TaskId::new(1)).unwrap_err();
    assert_eq!(rejected.code, "not_eligible");
    board.claim(&AgentId::team(3), TaskId::new(2)).unwrap();

    // Membership is read at claim time: add agent-3 to t1 and reclaim.
    let mut board = seeded_board();
    board
        .set_team_members(&t("t1"), vec![AgentId::team(1), AgentId::team(3)])
        .unwrap();
    board.claim(&AgentId::team(3), TaskId::new(1)).unwrap();
}

#[test]
fn unknown_task_is_rejected() {
    let mut board = seeded_board();
    let missing = board.claim(&AgentId::team(1), TaskId::new(9)).unwrap_err();
    assert_eq!(missing.code, "unknown_task");
    assert_eq!(
        board.unassign(TaskId::new(9)).unwrap_err().code,
        "unknown_task"
    );
    assert_eq!(
        board.cancel(TaskId::new(9), "x".to_string()).unwrap_err().code,
        "unknown_task"
    );
}

#[test]
fn release_reopens_and_requires_a_claim() {
    let mut board = seeded_board();
    board.claim(&AgentId::team(1), TaskId::new(1)).unwrap();
    assert_eq!(board.release(&AgentId::team(1)).unwrap(), TaskId::new(1));
    assert_eq!(board.task(TaskId::new(1)).unwrap().state, TaskState::Open);
    // Repeated releases are a signal, not an error — reclaim and re-release.
    board.claim(&AgentId::team(2), TaskId::new(1)).unwrap();
    assert_eq!(board.release(&AgentId::team(2)).unwrap(), TaskId::new(1));
    // No claim → rejected.
    assert_eq!(
        board.release(&AgentId::team(1)).unwrap_err().code,
        "task_not_claimed"
    );
}

#[test]
fn unassign_returns_the_previous_claimant() {
    let mut board = seeded_board();
    board.claim(&AgentId::team(2), TaskId::new(1)).unwrap();
    assert_eq!(board.unassign(TaskId::new(1)).unwrap(), AgentId::team(2));
    assert_eq!(board.task(TaskId::new(1)).unwrap().state, TaskState::Open);
    assert_eq!(
        board.unassign(TaskId::new(1)).unwrap_err().code,
        "task_not_claimed"
    );
}

#[test]
fn complete_records_result_and_result_ref() {
    let mut board = seeded_board();
    board.claim(&AgentId::team(1), TaskId::new(1)).unwrap();
    let done = board
        .complete(
            &AgentId::team(1),
            "Setup section drafted.".to_string(),
            KnowledgeEntryId::new(6),
        )
        .unwrap();
    assert_eq!(done, TaskId::new(1));
    assert_eq!(
        board.task(TaskId::new(1)).unwrap().state,
        TaskState::Done {
            result: "Setup section drafted.".into(),
            result_ref: KnowledgeEntryId::new(6),
        }
    );
    assert_eq!(
        board
            .complete(&AgentId::team(1), "again".to_string(), KnowledgeEntryId::new(7))
            .unwrap_err()
            .code,
        "task_not_claimed"
    );
}

#[test]
fn cancel_is_open_only_and_there_is_no_failed_state() {
    let mut board = seeded_board();
    board.cancel(TaskId::new(2), "descoped".to_string()).unwrap();
    assert_eq!(
        board.task(TaskId::new(2)).unwrap().state,
        TaskState::Cancelled {
            reason: "descoped".into()
        }
    );
    // Claimed tasks must be unassigned first.
    board.claim(&AgentId::team(1), TaskId::new(1)).unwrap();
    assert_eq!(
        board.cancel(TaskId::new(1), "x".to_string()).unwrap_err().code,
        "task_not_open"
    );
    // Terminal states stay terminal.
    assert_eq!(
        board.cancel(TaskId::new(2), "x".to_string()).unwrap_err().code,
        "task_not_open"
    );
}

#[test]
fn finish_blockers_enumerates_open_and_claimed_tasks() {
    let mut board = seeded_board();
    board.claim(&AgentId::team(1), TaskId::new(1)).unwrap();
    let blockers: Vec<TaskId> = board.finish_blockers().iter().map(|t| t.id).collect();
    assert_eq!(blockers, vec![TaskId::new(1), TaskId::new(2)]);

    board
        .complete(&AgentId::team(1), "done".to_string(), KnowledgeEntryId::new(1))
        .unwrap();
    board.cancel(TaskId::new(2), "descoped".to_string()).unwrap();
    assert!(board.finish_blockers().is_empty());
}

#[test]
fn duplicate_and_unknown_teams_are_rejected() {
    let mut board = seeded_board();
    assert_eq!(
        board.form_team(t("t1"), vec![]).unwrap_err().code,
        "duplicate_team"
    );
    assert_eq!(
        board
            .create_task(
                TaskId::new(3),
                "x".to_string(),
                "y".to_string(),
                AgentId::orchestrator(),
                EventId::new(9),
                Some(t("t9")),
            )
            .unwrap_err()
            .code,
        "unknown_team"
    );
    assert_eq!(
        board.dissolve_team(&t("t9")).unwrap_err().code,
        "unknown_team"
    );
    assert_eq!(
        board.set_team_members(&t("t9"), vec![]).unwrap_err().code,
        "unknown_team"
    );
}

#[test]
fn dissolve_is_rejected_while_live_team_tasks_remain() {
    let mut board = seeded_board();
    let live = board.dissolve_team(&t("t1")).unwrap_err();
    assert_eq!(live.code, "team_has_live_tasks");
    assert!(live.message.contains("1"), "enumerates the blockers");

    board.claim(&AgentId::team(1), TaskId::new(1)).unwrap();
    board
        .complete(&AgentId::team(1), "done".to_string(), KnowledgeEntryId::new(1))
        .unwrap();
    board.dissolve_team(&t("t1")).unwrap();
    assert!(board.team(&t("t1")).unwrap().dissolved);
    assert_eq!(
        board.dissolve_team(&t("t1")).unwrap_err().code,
        "team_dissolved"
    );
    // Ids are never reused.
    assert_eq!(
        board.form_team(t("t1"), vec![]).unwrap_err().code,
        "duplicate_team"
    );
}

#[test]
fn set_team_members_is_a_declarative_replace_with_deltas() {
    let mut board = seeded_board();
    let delta = board
        .set_team_members(&t("t1"), vec![AgentId::team(2), AgentId::team(3)])
        .unwrap();
    assert_eq!(delta.added, vec![AgentId::team(3)]);
    assert_eq!(delta.removed, vec![AgentId::team(1)]);
    assert_eq!(
        board.team(&t("t1")).unwrap().members,
        vec![AgentId::team(2), AgentId::team(3)]
    );
}

#[test]
fn digest_lines_render_the_pinned_grammar() {
    let mut board = seeded_board();
    board.claim(&AgentId::team(1), TaskId::new(1)).unwrap();
    assert_eq!(
        board.digest_lines(None),
        vec![
            "- task 1 [Claimed by agent-1] team:t1  \"Draft the setup section\"",
            "- task 2 [Open] team:-  \"Draft the architecture overview\"",
        ]
    );

    board
        .complete(&AgentId::team(1), "done".to_string(), KnowledgeEntryId::new(3))
        .unwrap();
    board.cancel(TaskId::new(2), "descoped".to_string()).unwrap();
    assert_eq!(
        board.digest_lines(None),
        vec![
            "- task 1 [Done] team:t1  \"Draft the setup section\"",
            "- task 2 [Cancelled] team:-  \"Draft the architecture overview\"",
        ]
    );
}

#[test]
fn digest_slice_is_claimed_plus_eligible_for_a_team_agent() {
    let mut board = seeded_board();
    board
        .create_task(
            TaskId::new(3),
            "Team-only follow-up".to_string(),
            "d".to_string(),
            AgentId::orchestrator(),
            EventId::new(9),
            Some(t("t1")),
        )
        .unwrap();
    board.claim(&AgentId::team(1), TaskId::new(1)).unwrap();

    // agent-1 (in t1, claiming task 1): its claimed task + open eligible.
    assert_eq!(
        board.digest_lines(Some(&AgentId::team(1))),
        vec![
            "- task 1 [Claimed by agent-1] team:t1  \"Draft the setup section\"",
            "- task 2 [Open] team:-  \"Draft the architecture overview\"",
            "- task 3 [Open] team:t1  \"Team-only follow-up\"",
        ]
    );
    // agent-3 (not in t1): only the untagged open task.
    assert_eq!(
        board.digest_lines(Some(&AgentId::team(3))),
        vec!["- task 2 [Open] team:-  \"Draft the architecture overview\""]
    );
}
