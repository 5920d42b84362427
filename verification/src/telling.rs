//! What agents are told in words: what stands in the way of an end, what became of a directive,
//! what a remembered call was about, and the numbers of a run.
use crate::agent::{AgentId, Role};
use crate::directive::{args_text, DirectiveView, ResolutionView};
use crate::dispatch::{args_step, gist, quoted_start, Replies};
use crate::exchange::call_line;
use crate::json::{parsed_json, JsonView};
use crate::metrics::{deepest, oldest_pending, short_text, tokens_text, MetricsView};
use crate::text::{dec, joined, number, number_of_dec};
use crate::tools::{FinishRunArgs, OutcomeView, VerbArgs};
use crate::verbs::blocker_lines;
use crate::wire::CallView;
use crate::world::WorldView;
use vstd::prelude::*;

verus! {

// ---------------------------------------------------------------------------
// What stands in the way.
// ---------------------------------------------------------------------------

proof fn lemma_blocker_line(list: Seq<crate::board::TaskView>, i: int)
    requires
        0 <= i < list.len(),
    ensures
        blocker_lines(list).len() == list.len(),
        blocker_lines(list)[i] == "task "@ + dec(list[i].id.0 as nat) + " ["@ + list[i].state.label()
            + "]"@,
    decreases list.len(),
{
    let front = list.drop_last();
    lemma_blocker_count(front);
    if i < front.len() {
        lemma_blocker_line(front, i);
        assert(front[i] == list[i]);
    }
}

proof fn lemma_blocker_count(list: Seq<crate::board::TaskView>)
    ensures
        blocker_lines(list).len() == list.len(),
    decreases list.len(),
{
    if list.len() > 0 {
        lemma_blocker_count(list.drop_last());
    }
}

proof fn lemma_blocker_of(b: crate::board::BoardView, n: int, k: int)
    requires
        0 <= k < n <= b.tasks.len(),
        !b.tasks[k].state.terminal(),
    ensures
        exists|i: int| 0 <= i < b.blockers(n).len() && #[trigger] b.blockers(n)[i] == b.tasks[k],
    decreases n,
{
    if k < n - 1 {
        lemma_blocker_of(b, n - 1, k);
        let i = choose|i: int|
            0 <= i < b.blockers(n - 1).len() && #[trigger] b.blockers(n - 1)[i] == b.tasks[k];
        assert(b.blockers(n)[i] == b.tasks[k]);
    } else {
        assert(b.blockers(n)[b.blockers(n).len() - 1] == b.tasks[k]);
    }
}

/// The parts of a list that stands behind a text.
pub open spec fn lists(message: Seq<char>, front: Seq<char>, parts: Seq<Seq<char>>) -> bool {
    message == front + joined(parts, ", "@)
}

/// Who may not finish a run is told every task that is still open or claimed, with its number and
/// its state.
pub proof fn refused_ends_name_every_live_task(
    w: WorldView,
    role: Role,
    caller: AgentId,
    a: FinishRunArgs,
    replies: Replies,
    k: int,
)
    requires
        0 <= k < w.board.tasks.len(),
        w.board.tasks[k].state is Open || w.board.tasks[k].state is Claimed,
    ensures
        args_step(w, role, caller, VerbArgs::FinishRun(a), replies).1 matches OutcomeView::Rejected {
            message,
            ..
        } && exists|parts: Seq<Seq<char>>, i: int|
            {
                &&& #[trigger] lists(
                    message,
                    "cannot finish: non-terminal tasks remain — "@,
                    parts,
                )
                &&& 0 <= i < parts.len()
                &&& #[trigger] parts[i] == "task "@ + dec(w.board.tasks[k].id.0 as nat) + " ["@
                    + w.board.tasks[k].state.label() + "]"@
            },
{
    let n = w.board.tasks.len() as int;
    let list = w.board.blockers(n);
    lemma_blocker_of(w.board, n, k);
    let i = choose|i: int| 0 <= i < list.len() && #[trigger] list[i] == w.board.tasks[k];
    lemma_blocker_line(list, i);
    let parts = blocker_lines(list);
    let told = args_step(w, role, caller, VerbArgs::FinishRun(a), replies).1;
    assert(lists(told->Rejected_message, "cannot finish: non-terminal tasks remain — "@, parts));
    assert(parts[i] == "task "@ + dec(w.board.tasks[k].id.0 as nat) + " ["@
        + w.board.tasks[k].state.label() + "]"@);
}

// ---------------------------------------------------------------------------
// Directives.
// ---------------------------------------------------------------------------

/// Who issued a directive is told what became of it: that it waits, who fulfilled it, or who
/// declined it and why.
pub proof fn reports_tell_what_became_of_a_directive(d: DirectiveView)
    ensures
        ({
            let front = "- directive "@ + dec(d.id.0 as nat) + " ["@ + d.tier.name() + "] "@
                + d.kind.name() + "{"@ + args_text(d.kind, d.args) + "} — "@;
            let back = match d.state {
                ResolutionView::Pending => "pending"@,
                ResolutionView::Fulfilled { by } => "fulfilled by "@ + by.handle(),
                ResolutionView::Declined { by, reason } => "declined by "@ + by.handle() + ": \""@
                    + reason + "\""@,
            };
            &&& front.is_prefix_of(d.report())
            &&& d.report().skip(front.len() as int) == back
        }),
{
    let front = "- directive "@ + dec(d.id.0 as nat) + " ["@ + d.tier.name() + "] "@
        + d.kind.name() + "{"@ + args_text(d.kind, d.args) + "} — "@;
    assert(d.report() =~= front + d.state.outcome());
    assert(d.report().skip(front.len() as int) =~= d.state.outcome());
}

// ---------------------------------------------------------------------------
// Remembered calls.
// ---------------------------------------------------------------------------

spec fn length_and_start(s: Seq<char>) -> (nat, char) {
    (s.len(), s[0])
}

proof fn lemma_verbs()
    ensures
        length_and_start("claim_task"@) == (10nat, 'c'),
        length_and_start("complete_task"@) == (13nat, 'c'),
        length_and_start("write_knowledge"@) == (15nat, 'w'),
        length_and_start("search_knowledge"@) == (16nat, 's'),
        length_and_start("post_message"@) == (12nat, 'p'),
{
    reveal_strlit("claim_task");
    reveal_strlit("complete_task");
    reveal_strlit("write_knowledge");
    reveal_strlit("search_knowledge");
    reveal_strlit("post_message");
}

/// A call is remembered by what it was about: a claim by its task, what was written or looked for
/// by how it starts, a message by whom it went to, and any other call by its name alone.
pub proof fn calls_are_remembered_by_their_matter(name: Seq<char>, args: JsonView, n: u64, t: Seq<char>)
    ensures
        args.get("task"@) == Some(JsonView::number(n)) ==> ({
            let g = gist("claim_task"@, args);
            g.take(5) == "task:"@ && number(g.skip(5), u64::MAX as nat) == Some(n as nat)
        }),
        args.get("result"@) == Some(JsonView::Text(t)) ==> gist("complete_task"@, args)
            == quoted_start(t),
        args.get("text"@) == Some(JsonView::Text(t)) ==> gist("write_knowledge"@, args)
            == quoted_start(t),
        args.get("query"@) == Some(JsonView::Text(t)) ==> gist("search_knowledge"@, args)
            == quoted_start(t),
        args.get("to"@) == Some(JsonView::Text(t)) ==> gist("post_message"@, args) == "to:"@ + t,
        args.get("to"@) is None && args.get("team"@) == Some(JsonView::Text(t)) ==> gist(
            "post_message"@,
            args,
        ) == "team:"@ + t,
        args.get("to"@) is None && args.get("team"@) is None ==> gist("post_message"@, args)
            == "broadcast"@,
        name != "claim_task"@ && name != "complete_task"@ && name != "write_knowledge"@ && name
            != "search_knowledge"@ && name != "post_message"@ ==> gist(name, args).len() == 0,
{
    lemma_verbs();
    reveal_strlit("task:");
    let front = "task:"@ + dec(n as nat);
    assert(front.take(5) =~= "task:"@);
    assert(front.skip(5) =~= dec(n as nat));
    number_of_dec(n as nat, u64::MAX as nat);
    assert(length_and_start("complete_task"@) != length_and_start("claim_task"@));
    assert(length_and_start("write_knowledge"@) != length_and_start("claim_task"@));
    assert(length_and_start("write_knowledge"@) != length_and_start("complete_task"@));
    assert(length_and_start("search_knowledge"@) != length_and_start("claim_task"@));
    assert(length_and_start("search_knowledge"@) != length_and_start("complete_task"@));
    assert(length_and_start("search_knowledge"@) != length_and_start("write_knowledge"@));
    assert(length_and_start("post_message"@) != length_and_start("claim_task"@));
    assert(length_and_start("post_message"@) != length_and_start("complete_task"@));
    assert(length_and_start("post_message"@) != length_and_start("write_knowledge"@));
    assert(length_and_start("post_message"@) != length_and_start("search_knowledge"@));
}

/// What is quoted of a text is how it starts: up to twenty-four characters, and a mark where there
/// are more.
pub proof fn quotes_show_how_texts_start(t: Seq<char>, i: int)
    ensures
        ({
            let q = quoted_start(t);
            let n = if t.len() > 24 {
                24
            } else {
                t.len() as int
            };
            &&& q[0] == '"' && q.last() == '"'
            &&& 0 <= i < n ==> q[1 + i] == t[i]
            &&& t.len() <= 24 ==> q.len() == t.len() + 2
            &&& t.len() > 24 ==> q.len() == 27 && q[25] == '…'
        }),
{
    reveal_strlit("\"");
    reveal_strlit("…\"");
    if t.len() > 24 {
        assert(t.take(24).len() == 24);
        assert(0 <= i < 24 ==> t.take(24)[i] == t[i]);
    }
}

// ---------------------------------------------------------------------------
// The numbers of a run.
// ---------------------------------------------------------------------------

proof fn lemma_head(m: MetricsView, n: int)
    requires
        0 <= n <= m.team_agents.len(),
    ensures
        m.digest_head(n).len() == n + 2,
        m.digest_head(n)[0] == "throughput: "@ + dec(m.counts.tasks_completed as nat)
            + " task_completed / "@ + dec(m.events() as nat) + " EventIds · latency: "@
            + m.latency(),
        m.digest_head(n)[1] == "utilization:"@,
        forall|i: int|
            0 <= i < n ==> m.digest_head(n)[2 + i] == #[trigger] m.utilization(m.team_agents[i]),
        m.malformed_list(n).len() == n,
        forall|i: int|
            0 <= i < n ==> #[trigger] m.malformed_list(n)[i] == short_text(m.team_agents[i].id)
                + ":"@ + dec(m.team_agents[i].malformed as nat),
    decreases n,
{
    if n > 0 {
        lemma_head(m, n - 1);
        assert forall|i: int| 0 <= i < n implies m.digest_head(n)[2 + i]
            == #[trigger] m.utilization(m.team_agents[i]) by {
            if i < n - 1 {
                assert(m.digest_head(n)[2 + i] == m.digest_head(n - 1)[2 + i]);
            }
        }
        assert forall|i: int| 0 <= i < n implies #[trigger] m.malformed_list(n)[i] == short_text(
            m.team_agents[i].id,
        ) + ":"@ + dec(m.team_agents[i].malformed as nat) by {
            if i < n - 1 {
                assert(m.malformed_list(n)[i] == m.malformed_list(n - 1)[i]);
            }
        }
    }
}

/// Whether a text is made of these lines.
pub open spec fn made_of(text: Seq<char>, lines: Seq<Seq<char>>) -> bool {
    text == joined(lines, "\n"@)
}

/// The digest of a run's numbers tells what was done, what each team agent does, how deep and how
/// old the mail is, what was spent, and what went wrong, agent by agent.
pub proof fn digests_tell_the_numbers(m: MetricsView, i: int)
    requires
        0 <= i < m.team_agents.len(),
    ensures
        exists|lines: Seq<Seq<char>>, bad: Seq<Seq<char>>|
            {
                let n = m.team_agents.len();
                &&& #[trigger] made_of(m.digest_text(), lines)
                &&& lines.len() == n + 4
                &&& lines[0] == "throughput: "@ + dec(m.counts.tasks_completed as nat)
                    + " task_completed / "@ + dec(m.events() as nat) + " EventIds · latency: "@
                    + m.latency()
                &&& lines[2 + i] == m.utilization(m.team_agents[i])
                &&& lines[n as int + 2] == "mailbox: depth "@ + dec(deepest(m.pending)) + ", max "@
                    + dec(m.counts.mailbox_max_depth as nat) + ", oldest-pending-age "@ + dec(
                    oldest_pending(m.pending, m.events()) as nat,
                )
                &&& lines[n as int + 3] == "tokens: run "@ + tokens_text(
                    m.counts.tokens_total as nat,
                ) + " · faults: parks "@ + dec(m.counts.parks as nat) + ", malformed["@ + joined(
                    bad,
                    " "@,
                ) + "] · directives: issued "@ + dec(m.counts.directives_issued as nat) + "/ful "@
                    + dec(m.counts.directives_fulfilled as nat) + "/dec "@ + dec(
                    m.counts.directives_declined as nat,
                )
                &&& bad.len() == n
                &&& #[trigger] bad[i] == short_text(m.team_agents[i].id) + ":"@ + dec(
                    m.team_agents[i].malformed as nat,
                )
            },
        m.work_latencies.len() == 0 ==> m.latency() == "work n/a"@,
        crate::metrics::median(m.work_latencies) matches Some(mid) ==> m.latency() == "work median "@
            + dec(mid as nat) + " EventIds"@,
{
    let n = m.team_agents.len() as int;
    lemma_head(m, n);
    let bad = m.malformed_list(n);
    let lines = m.digest_head(n).push(
        "mailbox: depth "@ + dec(deepest(m.pending)) + ", max "@ + dec(
            m.counts.mailbox_max_depth as nat,
        ) + ", oldest-pending-age "@ + dec(oldest_pending(m.pending, m.events()) as nat),
    ).push(
        "tokens: run "@ + tokens_text(m.counts.tokens_total as nat) + " · faults: parks "@ + dec(
            m.counts.parks as nat,
        ) + ", malformed["@ + joined(bad, " "@) + "] · directives: issued "@ + dec(
            m.counts.directives_issued as nat,
        ) + "/ful "@ + dec(m.counts.directives_fulfilled as nat) + "/dec "@ + dec(
            m.counts.directives_declined as nat,
        ),
    );
    assert(made_of(m.digest_text(), lines));
    assert(lines[2 + i] == m.digest_head(n)[2 + i]);
    assert(lines[0] == m.digest_head(n)[0]);
    assert(bad[i] == short_text(m.team_agents[i].id) + ":"@ + dec(
        m.team_agents[i].malformed as nat,
    ));
}

/// A remembered call tells the turn, the verb, what it was about and how it went.
pub proof fn memories_tell_turn_call_and_end(turn: u64, call: CallView, told: OutcomeView)
    ensures
        ({
            let line = call_line(turn, call, told);
            let front = "- [turn "@ + dec(turn as nat) + "] "@ + call.name + "{"@;
            let back = "} -> "@ + told.word();
            let args = match parsed_json(call.arguments) {
                Some(v) => v,
                None => JsonView::Null,
            };
            &&& front.is_prefix_of(line)
            &&& back.is_suffix_of(line)
            &&& line.subrange(front.len() as int, line.len() - back.len()) == gist(call.name, args)
        }),
{
    let line = call_line(turn, call, told);
    let front = "- [turn "@ + dec(turn as nat) + "] "@ + call.name + "{"@;
    let back = "} -> "@ + told.word();
    let args = match parsed_json(call.arguments) {
        Some(v) => v,
        None => JsonView::Null,
    };
    assert(line =~= front + gist(call.name, args) + back);
    assert(line.subrange(front.len() as int, line.len() - back.len()) =~= gist(call.name, args));
}

} // verus!
