//! What each role is offered: the verbs in its requests are those that its calls can be for, and
//! the verbs that steer a run say of which tier they are.
use crate::agent::{AgentId, Role};
use crate::directive::DirectiveKind;
use crate::dispatch::{args_step, call_step, Replies};
use crate::json::JsonView;
use crate::tools::{catalogue, offers, schemed, OutcomeView, ToolView, VerbArgs};
use crate::world::WorldView;
use vstd::prelude::*;

verus! {

/// Whether arguments are for work on a task, or for going to sleep over it.
pub open spec fn for_workers(args: VerbArgs) -> bool {
    args is ClaimTask || args is CompleteTask || args is ReleaseTask || args is Sleep
}

/// Whether arguments are for talking and for what is known.
pub open spec fn for_talk(args: VerbArgs) -> bool {
    args is PostMessage || args is WriteKnowledge || args is SearchKnowledge
}

/// Whether arguments are for leading a run.
pub open spec fn for_leading(args: VerbArgs) -> bool {
    ||| args is CreateTask
    ||| args is CancelTask
    ||| args is UnassignTask
    ||| args is FormTeam
    ||| args is DissolveTeam
    ||| args is SetTeamMembers
    ||| args is Respecialize
    ||| args is DeclineDirective
    ||| args is FinishRun
}

/// Whether arguments are for putting an agent to sleep or for waking it.
pub open spec fn for_rest(args: VerbArgs) -> bool {
    args is SleepAgent || args is WakeAgent
}

/// Whether arguments are for steering a run from aside.
pub open spec fn for_steering(args: VerbArgs) -> bool {
    args is SetParallelism || args is Propose
}

/// Whether arguments propose something that the orchestrator has to judge, if they propose at all.
pub open spec fn judged(args: VerbArgs) -> bool {
    args matches VerbArgs::Propose(kind, _) ==> {
        ||| kind is ProposeRespecialize
        ||| kind is ProposeReallocate
        ||| kind is ProposeRebalance
    }
}

/// Whether a role may make a call with the given arguments.
pub open spec fn may(role: Role, args: VerbArgs) -> bool {
    match role {
        Role::TeamAgent => for_workers(args) || for_talk(args),
        Role::Orchestrator => for_leading(args) || for_rest(args) || for_talk(args),
        Role::MetaAgent => for_rest(args) || for_steering(args),
    }
}

/// What tells the verbs apart: how long a name is and how it starts.
spec fn mark(s: Seq<char>) -> (nat, char, char, char) {
    (s.len(), s[0], s[1], s[2])
}

spec fn marked(s: Seq<char>, n: nat, a: char, b: char, c: char) -> bool {
    mark(s) == (n, a, b, c)
}

proof fn lemma_marks()
    ensures
        marked("claim_task"@, 10, 'c', 'l', 'a'),
        marked("complete_task"@, 13, 'c', 'o', 'm'),
        marked("release_task"@, 12, 'r', 'e', 'l'),
        marked("post_message"@, 12, 'p', 'o', 's'),
        marked("write_knowledge"@, 15, 'w', 'r', 'i'),
        marked("search_knowledge"@, 16, 's', 'e', 'a'),
        marked("sleep"@, 5, 's', 'l', 'e'),
        marked("create_task"@, 11, 'c', 'r', 'e'),
        marked("cancel_task"@, 11, 'c', 'a', 'n'),
        marked("unassign_task"@, 13, 'u', 'n', 'a'),
        marked("form_team"@, 9, 'f', 'o', 'r'),
        marked("dissolve_team"@, 13, 'd', 'i', 's'),
        marked("set_team_members"@, 16, 's', 'e', 't'),
        marked("respecialize"@, 12, 'r', 'e', 's'),
        marked("sleep_agent"@, 11, 's', 'l', 'e'),
        marked("wake_agent"@, 10, 'w', 'a', 'k'),
        marked("decline_directive"@, 17, 'd', 'e', 'c'),
        marked("finish_run"@, 10, 'f', 'i', 'n'),
        marked("set_parallelism"@, 15, 's', 'e', 't'),
        marked("propose_respecialize"@, 20, 'p', 'r', 'o'),
        marked("propose_reallocate"@, 18, 'p', 'r', 'o'),
        marked("propose_rebalance"@, 17, 'p', 'r', 'o'),
{
    reveal_strlit("claim_task");
    reveal_strlit("complete_task");
    reveal_strlit("release_task");
    reveal_strlit("post_message");
    reveal_strlit("write_knowledge");
    reveal_strlit("search_knowledge");
    reveal_strlit("sleep");
    reveal_strlit("create_task");
    reveal_strlit("cancel_task");
    reveal_strlit("unassign_task");
    reveal_strlit("form_team");
    reveal_strlit("dissolve_team");
    reveal_strlit("set_team_members");
    reveal_strlit("respecialize");
    reveal_strlit("sleep_agent");
    reveal_strlit("wake_agent");
    reveal_strlit("decline_directive");
    reveal_strlit("finish_run");
    reveal_strlit("set_parallelism");
    reveal_strlit("propose_respecialize");
    reveal_strlit("propose_reallocate");
    reveal_strlit("propose_rebalance");
}

/// The place of a verb among those of a role.
spec fn seat(role: Role, args: VerbArgs) -> int {
    match role {
        Role::TeamAgent => match args {
            VerbArgs::ClaimTask(_) => 0,
            VerbArgs::CompleteTask(_) => 1,
            VerbArgs::ReleaseTask(_) => 2,
            VerbArgs::PostMessage(_) => 3,
            VerbArgs::WriteKnowledge(_) => 4,
            VerbArgs::SearchKnowledge(_) => 5,
            _ => 6,
        },
        Role::Orchestrator => match args {
            VerbArgs::CreateTask(_) => 0,
            VerbArgs::CancelTask(_) => 1,
            VerbArgs::UnassignTask(_) => 2,
            VerbArgs::FormTeam(_) => 3,
            VerbArgs::DissolveTeam(_) => 4,
            VerbArgs::SetTeamMembers(_) => 5,
            VerbArgs::Respecialize(_) => 6,
            VerbArgs::SleepAgent(_) => 7,
            VerbArgs::WakeAgent(_) => 8,
            VerbArgs::DeclineDirective(_) => 9,
            VerbArgs::PostMessage(_) => 10,
            VerbArgs::WriteKnowledge(_) => 11,
            VerbArgs::SearchKnowledge(_) => 12,
            _ => 13,
        },
        Role::MetaAgent => match args {
            VerbArgs::SetParallelism(_) => 0,
            VerbArgs::SleepAgent(_) => 1,
            VerbArgs::WakeAgent(_) => 2,
            VerbArgs::Propose(DirectiveKind::ProposeRespecialize, _) => 3,
            VerbArgs::Propose(DirectiveKind::ProposeReallocate, _) => 4,
            _ => 5,
        },
    }
}

/// The verbs that a role is offered are those that it may call, each of them once.
#[verifier::rlimit(60)]
#[verifier::spinoff_prover]
pub proof fn roles_are_offered_their_verbs(role: Role, args: VerbArgs)
    requires
        judged(args),
    ensures
        offers(catalogue(role), args.verb()) <==> may(role, args),
        forall|i: int, j: int|
            0 <= i < j < catalogue(role).len() ==> (#[trigger] catalogue(role)[i]).name != (
            #[trigger] catalogue(role)[j]).name,
{
    lemma_marks();
    let all = catalogue(role);
    assert forall|i: int, j: int| 0 <= i < j < all.len() implies (#[trigger] all[i]).name != (
    #[trigger] all[j]).name by {
        assert(mark(all[i].name) != mark(all[j].name));
    }
    if may(role, args) {
        assert(all[seat(role, args)].name == args.verb());
    } else {
        assert forall|i: int| 0 <= i < all.len() implies (#[trigger] all[i]).name
            != args.verb() by {
            assert(mark(all[i].name) != mark(args.verb()));
        }
    }
}

proof fn lemma_same_offer(tools: Seq<ToolView>, schemas: Seq<(Seq<char>, JsonView)>, name: Seq<char>)
    ensures
        offers(schemed(tools, schemas), name) <==> offers(tools, name),
{
    let after = schemed(tools, schemas);
    if offers(tools, name) {
        let i = choose|i: int| 0 <= i < tools.len() && (#[trigger] tools[i]).name == name;
        assert(after[i].name == name);
    }
    if offers(after, name) {
        let i = choose|i: int| 0 <= i < after.len() && (#[trigger] after[i]).name == name;
        assert(tools[i].name == name);
    }
}

/// A call goes by its arguments if its maker may call that verb; if not, it is turned away as
/// unknown and changes nothing.
pub proof fn roles_keep_to_their_verbs(
    w: WorldView,
    role: Role,
    caller: AgentId,
    args: VerbArgs,
    schemas: Seq<(Seq<char>, JsonView)>,
    replies: Replies,
)
    requires
        judged(args),
    ensures
        ({
            let tools = schemed(catalogue(role), schemas);
            let (after, told) = call_step(
                w,
                tools,
                role,
                caller,
                args.verb(),
                Ok::<VerbArgs, String>(args),
                replies,
            );
            if may(role, args) {
                (after, told) == args_step(w, role, caller, args, replies)
            } else {
                after == w && (told matches OutcomeView::Invalid { code, .. } && code
                    == "unknown_verb"@)
            }
        }),
{
    roles_are_offered_their_verbs(role, args);
    lemma_same_offer(catalogue(role), schemas, args.verb());
}

/// A directive is mechanical if the meta-agent is told that the runtime applies it, and left to
/// judgment if it is told that it proposes something.
#[verifier::rlimit(60)]
#[verifier::spinoff_prover]
pub proof fn directives_say_their_tier(kind: DirectiveKind, i: int)
    requires
        0 <= i < catalogue(Role::MetaAgent).len(),
        catalogue(Role::MetaAgent)[i].name == kind.name(),
    ensures
        kind.spec_tier() is Mechanical <==> catalogue(Role::MetaAgent)[i].description.take(10)
            == "Mechanical"@,
        kind.spec_tier() is Judgment <==> catalogue(Role::MetaAgent)[i].description.take(8)
            == "Judgment"@,
        kind.spec_tier() is Judgment <==> kind is ProposeRespecialize || kind is ProposeReallocate
            || kind is ProposeRebalance,
{
    lemma_marks();
    let all = catalogue(Role::MetaAgent);
    assert(mark(all[i].name) == mark(kind.name()));
    reveal_strlit("Mechanical");
    reveal_strlit("Judgment");
    reveal_strlit(
        "Mechanical directive: retune the effective team-agent permit count within [1, --parallel]. Applied by the runtime.",
    );
    reveal_strlit(
        "Mechanical directive: put an Idle team agent to sleep. Applied by the runtime.",
    );
    reveal_strlit(
        "Mechanical directive: wake a sleeping or parked agent. Applied by the runtime.",
    );
    reveal_strlit(
        "Judgment directive: propose the orchestrator respecialize an agent. Returns a directive id.",
    );
    reveal_strlit(
        "Judgment directive: propose the orchestrator unassign and reallocate a claimed task. Returns a directive id.",
    );
    reveal_strlit(
        "Judgment directive: propose the orchestrator rebalance a team's member set. Returns a directive id.",
    );
    let said = all[i].description;
    if kind.spec_tier() is Mechanical {
        assert(said.take(10) =~= "Mechanical"@);
        assert(said.take(8)[0] != "Judgment"@[0]);
    } else {
        assert(said.take(8) =~= "Judgment"@);
        assert(said.take(10)[0] != "Mechanical"@[0]);
    }
}

} // verus!
