//! Where knowledge comes from: every entry mirrors the event that caused it.
use crate::agent::{AgentId, Role};
use crate::context::ProfileView;
use crate::directive::DirectiveKind;
use crate::dispatch::{call_bytes, call_step, Replies};
use crate::event::{text_view, EventSource, EventView, KindView, Timestamp};
use crate::ids::{DirectiveId, RunId, TaskId};
use crate::knowledge::{EntryView, KnowledgeKind};
use crate::message::MessageView;
use crate::run::{blank_world, start_event, RunConfig};
use crate::text::texts;
use crate::tools::{ToolView, VerbArgs};
use crate::verbs::{
    cancel_step, claim_step, complete_step, create_step, decline_step, dissolve_step, fault,
    form_step, members_step, meta_sleep_step, meta_wake_step, parallel_step, post_step, profile_of,
    propose_step, release_step, respecialize_step, self_sleep_step, sleep_step, unassign_step,
    wake_step, write_step,
};
use crate::world::WorldView;
use vstd::prelude::*;

verus! {

/// An entry mirrors the event that it names: a message, a completed task or a note of its author,
/// with its text and its number.
pub open spec fn mirrors(events: Seq<EventView>, entry: EntryView) -> bool {
    let at = entry.source_event.0 as int;
    &&& 0 <= at < events.len()
    &&& events[at].source == EventSource::Agent(entry.author)
    &&& match entry.kind {
        KnowledgeKind::Message => events[at].kind matches KindView::MessageSent {
            body,
            knowledge_ref,
            ..
        } && body == entry.text && knowledge_ref == entry.id,
        KnowledgeKind::TaskCompletion => events[at].kind matches KindView::TaskCompleted {
            result,
            result_ref,
            ..
        } && result == entry.text && result_ref == entry.id,
        KnowledgeKind::Note => events[at].kind matches KindView::KnowledgeWritten { entry: id, text }
            && text == entry.text && id == entry.id,
    }
}

/// A message is in the store under the number that it names.
pub open spec fn stored(store: Seq<EntryView>, message: MessageView) -> bool {
    let at = message.knowledge_ref.0 - 1;
    &&& 0 <= at < store.len()
    &&& store[at].kind is Message
    &&& store[at].text == message.body
    &&& store[at].author == message.sender
}

/// Every entry mirrors its event, and every message is in the store.
pub open spec fn sourced(w: WorldView) -> bool {
    &&& w.next_event == w.events.len()
    &&& forall|i: int| 0 <= i < w.store.len() ==> mirrors(w.events, #[trigger] w.store[i])
    &&& forall|i: int| 0 <= i < w.messages.len() ==> stored(w.store, #[trigger] w.messages[i])
}

/// A longer log mirrors what it mirrored.
broadcast proof fn lemma_log_sourced(w: WorldView, source: EventSource, kind: KindView)
    requires
        w.next_event < u64::MAX,
        w.next_event == w.events.len(),
    ensures
        (#[trigger] w.log(source, kind)).next_event == w.log(source, kind).events.len(),
        forall|e: EntryView| #[trigger]
            mirrors(w.events, e) ==> mirrors(w.log(source, kind).events, e),
{
}

proof fn lemma_claim_sourced(w: WorldView, c: AgentId, id: TaskId)
    requires
        sourced(w),
        w.next_event + 2 <= u64::MAX,
        w.store.len() < u64::MAX,
    ensures
        sourced(claim_step(w, c, id).0),
{
    broadcast use lemma_log_sourced;

}

proof fn lemma_complete_sourced(w: WorldView, c: AgentId, x: Seq<char>, f: Option<Seq<char>>)
    requires
        sourced(w),
        w.next_event + 2 <= u64::MAX,
        w.store.len() < u64::MAX,
    ensures
        sourced(complete_step(w, c, x, f).0),
{
    broadcast use lemma_log_sourced;

}

proof fn lemma_release_sourced(w: WorldView, c: AgentId, r: Option<Seq<char>>)
    requires
        sourced(w),
        w.next_event + 2 <= u64::MAX,
        w.store.len() < u64::MAX,
    ensures
        sourced(release_step(w, c, r).0),
{
    broadcast use lemma_log_sourced;

}

proof fn lemma_post_sourced(
    w: WorldView,
    c: AgentId,
    to: Option<Seq<char>>,
    team: Option<Seq<char>>,
    all: Option<bool>,
    x: Seq<char>,
    f: Option<Seq<char>>,
)
    requires
        sourced(w),
        w.next_event + 2 <= u64::MAX,
        w.store.len() < u64::MAX,
    ensures
        sourced(post_step(w, c, to, team, all, x, f).0),
{
    broadcast use lemma_log_sourced;

}

proof fn lemma_write_sourced(w: WorldView, c: AgentId, x: Seq<char>, f: Option<Seq<char>>)
    requires
        sourced(w),
        w.next_event + 2 <= u64::MAX,
        w.store.len() < u64::MAX,
    ensures
        sourced(write_step(w, c, x, f).0),
{
    broadcast use lemma_log_sourced;

}

proof fn lemma_self_sleep_sourced(w: WorldView, c: AgentId)
    requires
        sourced(w),
        w.next_event + 2 <= u64::MAX,
        w.store.len() < u64::MAX,
    ensures
        sourced(self_sleep_step(w, c).0),
{
    broadcast use lemma_log_sourced;

}

proof fn lemma_create_sourced(
    w: WorldView,
    c: AgentId,
    t: Seq<char>,
    x: Seq<char>,
    g: Option<Seq<char>>,
)
    requires
        sourced(w),
        w.next_event + 2 <= u64::MAX,
        w.store.len() < u64::MAX,
    ensures
        sourced(create_step(w, c, t, x, g).0),
{
    broadcast use lemma_log_sourced;

}

proof fn lemma_cancel_sourced(w: WorldView, c: AgentId, id: TaskId, r: Seq<char>)
    requires
        sourced(w),
        w.next_event + 2 <= u64::MAX,
        w.store.len() < u64::MAX,
    ensures
        sourced(cancel_step(w, c, id, r).0),
{
    broadcast use lemma_log_sourced;

}

proof fn lemma_unassign_sourced(
    w: WorldView,
    c: AgentId,
    id: TaskId,
    r: Option<Seq<char>>,
    n: Option<u64>,
)
    requires
        sourced(w),
        w.next_event + 2 <= u64::MAX,
        w.store.len() < u64::MAX,
    ensures
        sourced(unassign_step(w, c, id, r, n).0),
{
    broadcast use lemma_log_sourced;

}

proof fn lemma_form_sourced(w: WorldView, c: AgentId, t: Seq<char>, m: Seq<Seq<char>>)
    requires
        sourced(w),
        w.next_event + 2 <= u64::MAX,
        w.store.len() < u64::MAX,
    ensures
        sourced(form_step(w, c, t, m).0),
{
    broadcast use lemma_log_sourced;

}

proof fn lemma_dissolve_sourced(w: WorldView, c: AgentId, t: Seq<char>)
    requires
        sourced(w),
        w.next_event + 2 <= u64::MAX,
        w.store.len() < u64::MAX,
    ensures
        sourced(dissolve_step(w, c, t).0),
{
    broadcast use lemma_log_sourced;

}

proof fn lemma_members_sourced(
    w: WorldView,
    c: AgentId,
    t: Seq<char>,
    m: Seq<Seq<char>>,
    n: Option<u64>,
)
    requires
        sourced(w),
        w.next_event + 2 <= u64::MAX,
        w.store.len() < u64::MAX,
    ensures
        sourced(members_step(w, c, t, m, n).0),
{
    broadcast use lemma_log_sourced;

}

proof fn lemma_respecialize_sourced(
    w: WorldView,
    c: AgentId,
    h: Seq<char>,
    p: ProfileView,
    n: Option<u64>,
)
    requires
        sourced(w),
        w.next_event + 2 <= u64::MAX,
        w.store.len() < u64::MAX,
    ensures
        sourced(respecialize_step(w, c, h, p, n).0),
{
    broadcast use lemma_log_sourced;

}

proof fn lemma_meta_sleep_sourced(w: WorldView, c: AgentId, h: Seq<char>)
    requires
        sourced(w),
        w.next_event + 2 <= u64::MAX,
        w.store.len() < u64::MAX,
    ensures
        sourced(meta_sleep_step(w, c, h).0),
{
    broadcast use lemma_log_sourced;

}

proof fn lemma_sleep_sourced(w: WorldView, c: AgentId, h: Seq<char>)
    requires
        sourced(w),
        w.next_event + 2 <= u64::MAX,
        w.store.len() < u64::MAX,
    ensures
        sourced(sleep_step(w, c, h).0),
{
    broadcast use lemma_log_sourced;

}

proof fn lemma_meta_wake_sourced(w: WorldView, c: AgentId, h: Seq<char>)
    requires
        sourced(w),
        w.next_event + 2 <= u64::MAX,
        w.store.len() < u64::MAX,
    ensures
        sourced(meta_wake_step(w, c, h).0),
{
    broadcast use lemma_log_sourced;

}

proof fn lemma_wake_sourced(w: WorldView, c: AgentId, h: Seq<char>)
    requires
        sourced(w),
        w.next_event + 2 <= u64::MAX,
        w.store.len() < u64::MAX,
    ensures
        sourced(wake_step(w, c, h).0),
{
    broadcast use lemma_log_sourced;

}

proof fn lemma_decline_sourced(w: WorldView, c: AgentId, id: DirectiveId, r: Seq<char>)
    requires
        sourced(w),
        w.next_event + 2 <= u64::MAX,
        w.store.len() < u64::MAX,
    ensures
        sourced(decline_step(w, c, id, r).0),
{
    broadcast use lemma_log_sourced;

}

proof fn lemma_parallel_sourced(w: WorldView, c: AgentId, n: u32)
    requires
        sourced(w),
        w.next_event + 2 <= u64::MAX,
        w.store.len() < u64::MAX,
    ensures
        sourced(parallel_step(w, c, n).0),
{
    broadcast use lemma_log_sourced;

}

proof fn lemma_propose_sourced(w: WorldView, c: AgentId, k: DirectiveKind, raw: Seq<char>)
    requires
        sourced(w),
        w.next_event + 2 <= u64::MAX,
        w.store.len() < u64::MAX,
    ensures
        sourced(propose_step(w, c, k, raw).0),
{
    broadcast use lemma_log_sourced;

}

// ---------------------------------------------------------------------------
// Laws.
// ---------------------------------------------------------------------------

/// A run starts with nothing in its store, so that everything in it mirrors its event.
pub proof fn starts_are_sourced(config: RunConfig, run: RunId, now: Timestamp)
    ensures
        sourced(blank_world(config, now).log(EventSource::System, start_event(config, run))),
{
}

/// Whatever is called, every entry of the store mirrors the event that it names, and every message is
/// in the store under the number that it names.
pub proof fn calls_keep_sources(
    w: WorldView,
    tools: Seq<ToolView>,
    role: Role,
    caller: AgentId,
    name: Seq<char>,
    decoded: Result<VerbArgs, String>,
    replies: Replies,
)
    requires
        sourced(w),
        w.room(2, call_bytes(decoded), 0),
    ensures
        sourced(call_step(w, tools, role, caller, name, decoded, replies).0),
{
    let f = fault(replies.embedded);
    if let Ok(args) = decoded {
        match args {
            VerbArgs::ClaimTask(x) => lemma_claim_sourced(w, caller, TaskId(x.task)),
            VerbArgs::CompleteTask(x) => lemma_complete_sourced(w, caller, x.result@, f),
            VerbArgs::ReleaseTask(x) => lemma_release_sourced(w, caller, text_view(x.reason)),
            VerbArgs::PostMessage(x) => lemma_post_sourced(w,
                caller,
                text_view(x.to),
                text_view(x.team),
                x.broadcast,
                x.body@,
                f,
            ),
            VerbArgs::WriteKnowledge(x) => lemma_write_sourced(w, caller, x.text@, f),
            VerbArgs::SearchKnowledge(_) => {},
            VerbArgs::Sleep(_) => lemma_self_sleep_sourced(w, caller),
            VerbArgs::CreateTask(x) => lemma_create_sourced(w,
                caller,
                x.title@,
                x.description@,
                text_view(x.team),
            ),
            VerbArgs::CancelTask(x) => lemma_cancel_sourced(w, caller, TaskId(x.task), x.reason@),
            VerbArgs::UnassignTask(x) => lemma_unassign_sourced(w,
                caller,
                TaskId(x.task),
                text_view(x.reason),
                x.in_response_to,
            ),
            VerbArgs::FormTeam(x) => lemma_form_sourced(w, caller, x.team@, texts(x.members@)),
            VerbArgs::DissolveTeam(x) => lemma_dissolve_sourced(w, caller, x.team@),
            VerbArgs::SetTeamMembers(x) => lemma_members_sourced(w,
                caller,
                x.team@,
                texts(x.members@),
                x.in_response_to,
            ),
            VerbArgs::Respecialize(x) => lemma_respecialize_sourced(w,
                caller,
                x.agent@,
                profile_of(x),
                x.in_response_to,
            ),
            VerbArgs::SleepAgent(x) => {
                lemma_meta_sleep_sourced(w, caller, x.agent@);
                lemma_sleep_sourced(w, caller, x.agent@);
            },
            VerbArgs::WakeAgent(x) => {
                lemma_meta_wake_sourced(w, caller, x.agent@);
                lemma_wake_sourced(w, caller, x.agent@);
            },
            VerbArgs::DeclineDirective(x) => lemma_decline_sourced(w,
                caller,
                DirectiveId(x.directive),
                x.reason@,
            ),
            VerbArgs::FinishRun(_) => {},
            VerbArgs::SetParallelism(x) => lemma_parallel_sourced(w, caller, x.target),
            VerbArgs::Propose(kind, raw) => lemma_propose_sourced(w, caller, kind, raw@),
        }
    }
}

/// Logging anything else keeps the sources; nothing but a call adds to the store.
pub proof fn logging_keeps_sources(w: WorldView, source: EventSource, kind: KindView)
    requires
        sourced(w),
        w.next_event < u64::MAX,
    ensures
        sourced(w.log(source, kind)),
        w.log(source, kind).store == w.store,
        w.log(source, kind).messages == w.messages,
{
    broadcast use lemma_log_sourced;

}

} // verus!
