//! What calls leave alone: the numbering of every agent's requests, who is under way, and whether the
//! run is finishing.
use crate::agent::{AgentId, Role};
use crate::context::ProfileView;
use crate::directive::DirectiveKind;
use crate::dispatch::{call_step, Replies};
use crate::event::{text_view, EventSource, KindView};
use crate::exchange::{lemma_same_controls, lemma_same_slots};
use crate::ids::{DirectiveId, TaskId};
use crate::text::texts;
use crate::tools::{ToolView, VerbArgs};
use crate::turn::{known, next_call, remembered};
use crate::verbs::{
    cancel_step, claim_step, complete_step, create_step, decline_step, dissolve_step, fault,
    form_step, members_step, meta_sleep_step, meta_wake_step, parallel_step, post_step, profile_of,
    propose_step, release_step, respecialize_step, self_sleep_step, sleep_step, unassign_step,
    wake_step, write_step,
};
use crate::world::{lemma_slot_at, slot_at, SlotView, WorldView};
use vstd::prelude::*;

verus! {

/// Two worlds have the same agents, each with the same number of requests made and turns begun, and
/// the same turns under way, and are finishing or not in the same way.
pub open spec fn same_numbering(a: WorldView, b: WorldView) -> bool {
    &&& a.team.len() == b.team.len()
    &&& forall|i: int|
        0 <= i < a.team.len() ==> (#[trigger] b.team[i]).id == a.team[i].id
            && b.team[i].channel.call_seq == a.team[i].channel.call_seq && b.team[i].turn_index
            == a.team[i].turn_index && b.team[i].in_flight == a.team[i].in_flight
    &&& a.metas.len() == b.metas.len()
    &&& forall|i: int|
        0 <= i < a.metas.len() ==> (#[trigger] b.metas[i]).id == a.metas[i].id
            && b.metas[i].channel == a.metas[i].channel && b.metas[i].turn_index
            == a.metas[i].turn_index && b.metas[i].in_flight == a.metas[i].in_flight
    &&& a.orchestrator == b.orchestrator
    &&& a.turns_in_flight == b.turns_in_flight
    &&& a.finishing == b.finishing
}

/// Logging leaves the numbering alone.
broadcast proof fn lemma_log_numbering(w: WorldView, source: EventSource, kind: KindView)
    ensures
        same_numbering(w, #[trigger] w.log(source, kind)),
{
}

/// Books that are found are there.
broadcast proof fn lemma_slot_there(team: Seq<SlotView>, agent: AgentId)
    ensures
        match #[trigger] slot_at(team, agent, 0) {
            Some(i) => 0 <= i < team.len(),
            None => true,
        },
{
    lemma_slot_at(team, agent, 0);
}

proof fn lemma_claim_numbering(w: WorldView, c: AgentId, id: TaskId)
    ensures
        same_numbering(w, claim_step(w, c, id).0),
{
    broadcast use {lemma_log_numbering, lemma_slot_there};

}

proof fn lemma_complete_numbering(w: WorldView, c: AgentId, x: Seq<char>, f: Option<Seq<char>>)
    ensures
        same_numbering(w, complete_step(w, c, x, f).0),
{
    broadcast use {lemma_log_numbering, lemma_slot_there};

}

proof fn lemma_release_numbering(w: WorldView, c: AgentId, r: Option<Seq<char>>)
    ensures
        same_numbering(w, release_step(w, c, r).0),
{
    broadcast use {lemma_log_numbering, lemma_slot_there};

}

proof fn lemma_post_numbering(
    w: WorldView,
    c: AgentId,
    to: Option<Seq<char>>,
    team: Option<Seq<char>>,
    all: Option<bool>,
    x: Seq<char>,
    f: Option<Seq<char>>,
)
    ensures
        same_numbering(w, post_step(w, c, to, team, all, x, f).0),
{
    broadcast use {lemma_log_numbering, lemma_slot_there};

}

proof fn lemma_write_numbering(w: WorldView, c: AgentId, x: Seq<char>, f: Option<Seq<char>>)
    ensures
        same_numbering(w, write_step(w, c, x, f).0),
{
    broadcast use {lemma_log_numbering, lemma_slot_there};

}

proof fn lemma_self_sleep_numbering(w: WorldView, c: AgentId)
    ensures
        same_numbering(w, self_sleep_step(w, c).0),
{
    broadcast use {lemma_log_numbering, lemma_slot_there};

}

proof fn lemma_create_numbering(
    w: WorldView,
    c: AgentId,
    t: Seq<char>,
    x: Seq<char>,
    g: Option<Seq<char>>,
)
    ensures
        same_numbering(w, create_step(w, c, t, x, g).0),
{
    broadcast use {lemma_log_numbering, lemma_slot_there};

}

proof fn lemma_cancel_numbering(w: WorldView, c: AgentId, id: TaskId, r: Seq<char>)
    ensures
        same_numbering(w, cancel_step(w, c, id, r).0),
{
    broadcast use {lemma_log_numbering, lemma_slot_there};

}

proof fn lemma_unassign_numbering(
    w: WorldView,
    c: AgentId,
    id: TaskId,
    r: Option<Seq<char>>,
    n: Option<u64>,
)
    ensures
        same_numbering(w, unassign_step(w, c, id, r, n).0),
{
    broadcast use {lemma_log_numbering, lemma_slot_there};

}

proof fn lemma_form_numbering(w: WorldView, c: AgentId, t: Seq<char>, m: Seq<Seq<char>>)
    ensures
        same_numbering(w, form_step(w, c, t, m).0),
{
    broadcast use {lemma_log_numbering, lemma_slot_there};

}

proof fn lemma_dissolve_numbering(w: WorldView, c: AgentId, t: Seq<char>)
    ensures
        same_numbering(w, dissolve_step(w, c, t).0),
{
    broadcast use {lemma_log_numbering, lemma_slot_there};

}

proof fn lemma_members_numbering(
    w: WorldView,
    c: AgentId,
    t: Seq<char>,
    m: Seq<Seq<char>>,
    n: Option<u64>,
)
    ensures
        same_numbering(w, members_step(w, c, t, m, n).0),
{
    broadcast use {lemma_log_numbering, lemma_slot_there};

}

proof fn lemma_respecialize_numbering(
    w: WorldView,
    c: AgentId,
    h: Seq<char>,
    p: ProfileView,
    n: Option<u64>,
)
    ensures
        same_numbering(w, respecialize_step(w, c, h, p, n).0),
{
    broadcast use {lemma_log_numbering, lemma_slot_there};

}

proof fn lemma_meta_sleep_numbering(w: WorldView, c: AgentId, h: Seq<char>)
    ensures
        same_numbering(w, meta_sleep_step(w, c, h).0),
{
    broadcast use {lemma_log_numbering, lemma_slot_there};

}

proof fn lemma_sleep_numbering(w: WorldView, c: AgentId, h: Seq<char>)
    ensures
        same_numbering(w, sleep_step(w, c, h).0),
{
    broadcast use {lemma_log_numbering, lemma_slot_there};

}

proof fn lemma_meta_wake_numbering(w: WorldView, c: AgentId, h: Seq<char>)
    ensures
        same_numbering(w, meta_wake_step(w, c, h).0),
{
    broadcast use {lemma_log_numbering, lemma_slot_there};

}

proof fn lemma_wake_numbering(w: WorldView, c: AgentId, h: Seq<char>)
    ensures
        same_numbering(w, wake_step(w, c, h).0),
{
    broadcast use {lemma_log_numbering, lemma_slot_there};

}

proof fn lemma_decline_numbering(w: WorldView, c: AgentId, id: DirectiveId, r: Seq<char>)
    ensures
        same_numbering(w, decline_step(w, c, id, r).0),
{
    broadcast use {lemma_log_numbering, lemma_slot_there};

}

proof fn lemma_parallel_numbering(w: WorldView, c: AgentId, n: u32)
    ensures
        same_numbering(w, parallel_step(w, c, n).0),
{
    broadcast use {lemma_log_numbering, lemma_slot_there};

}

proof fn lemma_propose_numbering(w: WorldView, c: AgentId, k: DirectiveKind, raw: Seq<char>)
    ensures
        same_numbering(w, propose_step(w, c, k, raw).0),
{
    broadcast use {lemma_log_numbering, lemma_slot_there};

}

// ---------------------------------------------------------------------------
// Laws.
// ---------------------------------------------------------------------------

/// A call leaves every agent's numbering alone, whatever it does: no request counter moves, not even
/// that of an agent whose specialty changes, no turn begins or ends, and neither does the run.
pub proof fn calls_keep_the_numbering(
    w: WorldView,
    tools: Seq<ToolView>,
    role: Role,
    caller: AgentId,
    name: Seq<char>,
    decoded: Result<VerbArgs, String>,
    replies: Replies,
)
    ensures
        same_numbering(w, call_step(w, tools, role, caller, name, decoded, replies).0),
{
    let f = fault(replies.embedded);
    if let Ok(args) = decoded {
        match args {
            VerbArgs::ClaimTask(x) => lemma_claim_numbering(w, caller, TaskId(x.task)),
            VerbArgs::CompleteTask(x) => lemma_complete_numbering(w, caller, x.result@, f),
            VerbArgs::ReleaseTask(x) => lemma_release_numbering(w, caller, text_view(x.reason)),
            VerbArgs::PostMessage(x) => lemma_post_numbering(w,
                caller,
                text_view(x.to),
                text_view(x.team),
                x.broadcast,
                x.body@,
                f,
            ),
            VerbArgs::WriteKnowledge(x) => lemma_write_numbering(w, caller, x.text@, f),
            VerbArgs::SearchKnowledge(_) => {},
            VerbArgs::Sleep(_) => lemma_self_sleep_numbering(w, caller),
            VerbArgs::CreateTask(x) => lemma_create_numbering(w,
                caller,
                x.title@,
                x.description@,
                text_view(x.team),
            ),
            VerbArgs::CancelTask(x) => lemma_cancel_numbering(w, caller, TaskId(x.task), x.reason@),
            VerbArgs::UnassignTask(x) => lemma_unassign_numbering(w,
                caller,
                TaskId(x.task),
                text_view(x.reason),
                x.in_response_to,
            ),
            VerbArgs::FormTeam(x) => lemma_form_numbering(w, caller, x.team@, texts(x.members@)),
            VerbArgs::DissolveTeam(x) => lemma_dissolve_numbering(w, caller, x.team@),
            VerbArgs::SetTeamMembers(x) => lemma_members_numbering(w,
                caller,
                x.team@,
                texts(x.members@),
                x.in_response_to,
            ),
            VerbArgs::Respecialize(x) => lemma_respecialize_numbering(w,
                caller,
                x.agent@,
                profile_of(x),
                x.in_response_to,
            ),
            VerbArgs::SleepAgent(x) => {
                lemma_meta_sleep_numbering(w, caller, x.agent@);
                lemma_sleep_numbering(w, caller, x.agent@);
            },
            VerbArgs::WakeAgent(x) => {
                lemma_meta_wake_numbering(w, caller, x.agent@);
                lemma_wake_numbering(w, caller, x.agent@);
            },
            VerbArgs::DeclineDirective(x) => lemma_decline_numbering(w,
                caller,
                DirectiveId(x.directive),
                x.reason@,
            ),
            VerbArgs::FinishRun(_) => {},
            VerbArgs::SetParallelism(x) => lemma_parallel_numbering(w, caller, x.target),
            VerbArgs::Propose(kind, raw) => lemma_propose_numbering(w, caller, kind, raw@),
        }
    }
}

/// Remembering a call leaves the numbering alone too, so that a turn's next request is numbered next
/// to its last one however many calls lie between.
pub proof fn memories_keep_the_numbering(
    w: WorldView,
    agent: AgentId,
    role: Role,
    line: Seq<char>,
    who: AgentId,
    as_role: Role,
)
    ensures
        same_numbering(w, remembered(w, agent, role, line)),
        known(w, who, as_role) ==> next_call(remembered(w, agent, role, line), who, as_role)
            == next_call(w, who, as_role),
{
    broadcast use lemma_slot_there;

    same_numbering_asks_the_same(w, remembered(w, agent, role, line), who, as_role);
}

/// Worlds with the same numbering number an agent's next request the same.
pub proof fn same_numbering_asks_the_same(a: WorldView, b: WorldView, agent: AgentId, role: Role)
    requires
        same_numbering(a, b),
    ensures
        known(a, agent, role) == known(b, agent, role),
        known(a, agent, role) ==> next_call(a, agent, role) == next_call(b, agent, role),
{
    assert forall|k: int| 0 <= k < a.team.len() implies (#[trigger] a.team[k]).id == b.team[k].id by {
        assert(b.team[k].id == a.team[k].id);
    }
    assert forall|k: int| 0 <= k < a.metas.len() implies (#[trigger] a.metas[k]).id
        == b.metas[k].id by {
        assert(b.metas[k].id == a.metas[k].id);
    }
    lemma_same_slots(a.team, b.team, agent, 0);
    lemma_same_controls(a.metas, b.metas, agent, 0);
}

} // verus!
