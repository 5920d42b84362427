//! How the built-in model behaves, told from what a request shows and what the reply then does.
use crate::json::JsonView;
use crate::mock::arc::{
    act_of, budget_of, bullets, claimants_of, create_calls, crew, decompose, fitting, form_call,
    idle_generalists, is_idle_generalist, judgment, long_words, made_calls, mechanical, observe,
    orchestrate, pending_at, pool_of, quota_of, reallocation, report_of, resolve, result_of,
    sent_calls, steer, task_count, task_text_of, tasks_in_work, topics, unfinished, work, work_args,
    work_verbs, PlanView, PlannedCall,
};
use crate::mock::parse::{
    claimed_by, lowest_of, titles_done, value_of, whole, AgentStateLine, ShownAgent, ShownClaim,
    ShownDirective, ShownState, ShownTask,
};
use crate::mock::phrase::{picked, Phrase};
use crate::mock::rendered::{Shown, ShownTools};
use crate::mock::seed::{stream, Draws};
use crate::text::{dec, lowercase};
use vstd::prelude::*;

verus! {

// ---------------------------------------------------------------------------
// Reading a board.
// ---------------------------------------------------------------------------

/// The task that is picked is open, and no open task has a smaller number; there is one if any is open.
pub proof fn lowest_is_the_least_open(tasks: Seq<ShownTask>, n: int, k: int)
    requires
        0 <= n <= tasks.len(),
    ensures
        lowest_of(tasks, n) matches Some(i) ==> 0 <= i < n && tasks[i].state is Open,
        0 <= k < n && tasks[k].state is Open ==> (lowest_of(tasks, n) matches Some(i)
            && tasks[i].id <= tasks[k].id),
    decreases n,
{
    if n > 0 {
        lowest_is_the_least_open(tasks, n - 1, k);
    }
}

/// The titles listed as done are those of the tasks that are done, and no others.
pub proof fn done_titles_are_of_done_tasks(tasks: Seq<ShownTask>, k: int, title: Seq<char>)
    ensures
        0 <= k < tasks.len() && tasks[k].state is Done ==> titles_done(tasks).contains(
            tasks[k].title,
        ),
        titles_done(tasks).contains(title) ==> exists|i: int|
            0 <= i < tasks.len() && (#[trigger] tasks[i]).state is Done && tasks[i].title == title,
        titles_done(tasks).len() <= tasks.len(),
    decreases tasks.len(),
{
    if tasks.len() > 0 {
        let front = tasks.drop_last();
        let last = tasks.len() - 1;
        let rest = titles_done(front);
        let all = titles_done(tasks);
        done_titles_are_of_done_tasks(front, k, title);
        if 0 <= k < tasks.len() && tasks[k].state is Done {
            if k < last {
                let i = choose|i: int| 0 <= i < rest.len() && rest[i] == tasks[k].title;
                assert(all[i] == tasks[k].title);
            } else {
                assert(all[rest.len() as int] == tasks[k].title);
            }
        }
        if all.contains(title) {
            let i = choose|i: int| 0 <= i < all.len() && all[i] == title;
            if i < rest.len() {
                assert(rest[i] == title);
                let j = choose|j: int|
                    0 <= j < front.len() && (#[trigger] front[j]).state is Done && front[j].title
                        == title;
                assert(tasks[j].state is Done);
            } else {
                assert(tasks[last].state is Done);
            }
        }
    }
}

/// The claimants are those who hold a task that the board shows, and no others.
pub proof fn claimants_hold_tasks(tasks: Seq<ShownTask>, k: int, who: Seq<char>)
    ensures
        0 <= k < tasks.len() ==> (tasks[k].state matches ShownState::Claimed { by } ==> claimed_by(
            tasks,
        ).contains(by)),
        claimed_by(tasks).contains(who) ==> exists|i: int|
            0 <= i < tasks.len() && (#[trigger] tasks[i]).state == (ShownState::Claimed {
                by: who,
            }),
    decreases tasks.len(),
{
    if tasks.len() > 0 {
        let front = tasks.drop_last();
        let last = tasks.len() - 1;
        let rest = claimed_by(front);
        let all = claimed_by(tasks);
        claimants_hold_tasks(front, k, who);
        if 0 <= k < tasks.len() {
            if let ShownState::Claimed { by } = tasks[k].state {
                if k < last {
                    let i = choose|i: int| 0 <= i < rest.len() && rest[i] == by;
                    assert(all[i] == by);
                } else {
                    assert(all[rest.len() as int] == by);
                }
            }
        }
        if all.contains(who) {
            let i = choose|i: int| 0 <= i < all.len() && all[i] == who;
            if i < rest.len() {
                assert(rest[i] == who);
                let j = choose|j: int|
                    0 <= j < front.len() && (#[trigger] front[j]).state == (ShownState::Claimed {
                        by: who,
                    });
                assert(tasks[j].state == (ShownState::Claimed { by: who }));
            } else {
                assert(tasks[last].state == (ShownState::Claimed { by: who }));
            }
        }
    }
}

// ---------------------------------------------------------------------------
// The orchestrator.
// ---------------------------------------------------------------------------

/// The orchestrator fills the board up to the budget first; then it resolves the first waiting
/// directive; then it waits for what is unfinished; and only then it finishes.
pub proof fn the_orchestrator_keeps_its_order(w: Shown, d: Draws, seed: u64, k: int)
    ensures
        ({
            let budget = crate::mock::arc::budget_of(seed);
            let full = task_count(w) >= budget;
            let waits = exists|i: int|
                0 <= i < w.directives.len() && (#[trigger] w.directives[i]).state == "pending"@;
            &&& !full ==> orchestrate(w, d, seed) == decompose(w, d, budget, task_count(w))
            &&& full && 0 <= k < w.directives.len() && w.directives[k].state == "pending"@ && (
            forall|i: int| 0 <= i < k ==> (#[trigger] w.directives[i]).state != "pending"@)
                ==> orchestrate(w, d, seed) == resolve(w, d, w.directives[k])
            &&& full && !waits && unfinished(w) ==> orchestrate(w, d, seed) == steer(w, d)
            &&& full && !waits && !unfinished(w) && task_count(w) > 0 ==> orchestrate(w, d, seed)
                == crate::mock::arc::finish(w, d)
        }),
{
    lemma_pending(w.directives, 0);
}

proof fn lemma_pending(ds: Seq<ShownDirective>, i: int)
    requires
        i >= 0,
    ensures
        match pending_at(ds, i) {
            Some(k) => i <= k < ds.len() && ds[k].state == "pending"@ && forall|j: int|
                i <= j < k ==> (#[trigger] ds[j]).state != "pending"@,
            None => forall|j: int| i <= j < ds.len() ==> (#[trigger] ds[j]).state != "pending"@,
        },
    decreases ds.len() - i,
{
    if i < ds.len() {
        lemma_pending(ds, i + 1);
    }
}

/// A call creates a task with a title and a description, for a team or for anyone.
pub open spec fn creates_for(call: PlannedCall, team: Option<Seq<char>>) -> bool {
    &&& call.0 == "create_task"@
    &&& call.1 matches JsonView::Object(fields) && {
        &&& fields.len() == (if team is Some {
            3int
        } else {
            2
        })
        &&& fields[0].0 == "description"@ && fields[0].1 is Text
        &&& fields[fields.len() - 1].0 == "title"@ && fields[fields.len() - 1].1 is Text
        &&& team matches Some(tag) ==> fields[1] == ("team"@, JsonView::Text(tag))
    }
}

proof fn lemma_create_calls(
    d: Draws,
    ts: Seq<Seq<char>>,
    team: Option<Seq<char>>,
    from: nat,
    n: nat,
    i: int,
)
    ensures
        create_calls(d, ts, team, from, n).0.len() == n,
        0 <= i < n ==> creates_for(create_calls(d, ts, team, from, n).0[i], team),
    decreases n,
{
    if n > 0 {
        lemma_create_calls(d, ts, team, from, (n - 1) as nat, i);
    }
}

/// A first batch may form a team of every agent that the board shows, and then its tasks are that
/// team's; without it they are for anyone. A second batch fills the board up to the budget, for the team
/// that most tasks belong to.
pub proof fn boards_are_filled_in_two_batches(
    w: Shown,
    d: Draws,
    budget: u64,
    count: nat,
    i: int,
)
    requires
        count < budget,
    ensures
        ({
            let plan = decompose(w, d, budget, count).0;
            plan matches PlanView::Calls(calls) && {
                let forms = calls.len() > 0 && calls[0] == form_call(pool_of(w));
                &&& count == 0 && !forms && 0 <= i < calls.len() ==> creates_for(calls[i], None)
                &&& count == 0 && forms && 0 < i < calls.len() ==> creates_for(
                    calls[i],
                    Some("t1"@),
                )
                &&& count == 0 && forms ==> pool_of(w) > 0 && w.tools.offers("form_team"@)
                &&& count > 0 ==> calls.len() == budget - count
                &&& count > 0 && 0 <= i < calls.len() ==> creates_for(
                    calls[i],
                    match w.board {
                        Some(b) => b.dominant(),
                        None => None,
                    },
                )
            }
        }),
{
    reveal_strlit("form_team");
    reveal_strlit("create_task");
    assert("form_team"@[0] == 'f' && "create_task"@[0] == 'c');
    let (size, team, first, d1) = crate::mock::arc::batch_of(w, d, budget, count);
    let calls = create_calls(d1, topics(w.goal), team, count, size as nat).0;
    lemma_create_calls(d1, topics(w.goal), team, count, size as nat, i);
    lemma_create_calls(d1, topics(w.goal), team, count, size as nat, i - 1);
    lemma_create_calls(d1, topics(w.goal), team, count, size as nat, 0);
    if first.len() == 0 {
        assert(first + calls =~= calls);
    } else if 0 < i < first.len() + calls.len() {
        assert((first + calls)[i] == calls[i - 1]);
    }
}

/// A team of everyone has the agents from one on, in order.
pub proof fn crews_are_everyone(n: nat, i: int)
    ensures
        crew(n).len() == n,
        0 <= i < n ==> crew(n)[i] == crate::agent::AgentId::Team((i + 1) as u64).handle() || i + 1
            > u64::MAX,
{
}

/// The call that carries a proposal out cites it, and does what it says: it gives the named agent the
/// named specialty, or takes the named task from its claimant.
pub proof fn acts_do_what_was_proposed(d: ShownDirective)
    ensures
        d.kind == "propose_respecialize"@ ==> match (
            value_of(d.args, "agent"@, 0),
            value_of(d.args, "specialty"@, 0),
        ) {
            (Some(agent), Some(slug)) => act_of(d) matches Some((verb, args)) && {
                &&& verb == "respecialize"@
                &&& args.get("agent"@) == Some(JsonView::Text(agent))
                &&& args.get("in_response_to"@) == Some(JsonView::number(d.id))
                &&& args.get("specialty"@) matches Some(s) && s.get("name"@) == Some(
                    JsonView::Text(slug),
                )
            },
            _ => act_of(d) is None,
        },
        d.kind == "propose_reallocate"@ ==> (act_of(d) matches Some((verb, args)) ==> {
            &&& verb == "unassign_task"@
            &&& args.get("in_response_to"@) == Some(JsonView::number(d.id))
            &&& value_of(d.args, "task"@, 0) matches Some(text) && whole(text) matches Some(n)
                && args.get("task"@) == Some(JsonView::number(n))
        }),
{
    reveal_strlit("propose_respecialize");
    reveal_strlit("propose_reallocate");
    assert("propose_respecialize"@.len() == 20 && "propose_reallocate"@.len() == 18);
    reveal_strlit("agent");
    reveal_strlit("in_response_to");
    reveal_strlit("specialty");
    reveal_strlit("description");
    reveal_strlit("focus");
    reveal_strlit("name");
    reveal_strlit("reason");
    reveal_strlit("task");
    assert("agent"@[0] == 'a' && "in_response_to"@[0] == 'i' && "specialty"@[0] == 's'
        && "description"@[0] == 'd' && "focus"@[0] == 'f' && "name"@[0] == 'n' && "reason"@[0]
        == 'r' && "task"@[0] == 't');
    reveal_with_fuel(crate::json::key_at, 4);
    if let Some((verb, args)) = act_of(d) {
        if d.kind == "propose_respecialize"@ {
            let fields = args->Object_0;
            assert(fields[0].0 == "agent"@ && fields[1].0 == "in_response_to"@ && fields[2].0
                == "specialty"@);
            let inner = fields[2].1->Object_0;
            assert(inner[0].0 == "description"@ && inner[1].0 == "focus"@ && inner[2].0
                == "name"@);
        } else if d.kind == "propose_reallocate"@ {
            let fields = args->Object_0;
            assert(fields[0].0 == "in_response_to"@ && fields[1].0 == "reason"@ && fields[2].0
                == "task"@);
        }
    }
}

/// A waiting directive is carried out, or declined by its number with a reason, or left waiting; it is
/// carried out only where that call fits.
pub proof fn directives_are_acted_on_or_declined(w: Shown, d: Draws, directive: ShownDirective)
    ensures
        match resolve(w, d, directive).0 {
            PlanView::Calls(calls) => calls.len() == 1 && {
                ||| act_of(directive) == Some(calls[0]) && w.tools.fit(calls[0].0, calls[0].1)
                ||| {
                    &&& calls[0].0 == "decline_directive"@
                    &&& w.tools.fit(calls[0].0, calls[0].1)
                    &&& calls[0].1 matches JsonView::Object(fields) && {
                        &&& fields.len() == 2
                        &&& fields[0] == ("directive"@, JsonView::number(directive.id))
                        &&& fields[1].0 == "reason"@ && fields[1].1 is Text
                    }
                }
            },
            PlanView::Yield(_) => true,
        },
{
}

/// While others work the orchestrator says nothing, or sends one message: to one of the claimants, or to
/// all.
pub proof fn steering_speaks_to_claimants_or_to_all(w: Shown, d: Draws)
    requires
        w.tools.offers("post_message"@),
        claimants_of(w).len() <= usize::MAX,
    ensures
        match steer(w, d).0 {
            PlanView::Calls(calls) => calls.len() == 1 && calls[0].0 == "post_message"@ && (
            calls[0].1 matches JsonView::Object(fields) && {
                &&& fields.len() == 2
                &&& fields[0].0 == "body"@ && fields[0].1 is Text
                &&& {
                    ||| fields[1] == ("broadcast"@, JsonView::Bool(true))
                    ||| exists|i: int|
                        fields[1] == ("to"@, JsonView::Text(#[trigger] claimants_of(w)[i]))
                }
            }),
            PlanView::Yield(_) => true,
        },
{
    if let PlanView::Calls(calls) = steer(w, d).0 {
        let fields = calls[0].1->Object_0;
        if fields[1] != ("broadcast"@, JsonView::Bool(true)) {
            let d1 = d.ratio(1, 4).1;
            let d2 = crate::mock::phrase::picked(d1, Phrase::Advice).1;
            let d3 = d2.ratio(3, 5).1;
            let i = d3.index(claimants_of(w).len() as usize).0 as int;
            assert(fields[1] == ("to"@, JsonView::Text(claimants_of(w)[i])));
        }
    }
}

proof fn lemma_bullets(items: Seq<Seq<char>>, k: int)
    requires
        0 <= k < items.len(),
    ensures
        exists|a: Seq<char>, b: Seq<char>|
            bullets(items) == #[trigger] (a + ("- "@ + items[k] + "\n"@) + b),
    decreases items.len(),
{
    let front = items.drop_last();
    let line = "- "@ + items[k] + "\n"@;
    if k == items.len() - 1 {
        assert(bullets(items) =~= bullets(front) + line + Seq::<char>::empty());
    } else {
        lemma_bullets(front, k);
        let (a, b) = choose|a: Seq<char>, b: Seq<char>|
            bullets(front) == #[trigger] (a + ("- "@ + front[k] + "\n"@) + b);
        let more = "- "@ + items.last() + "\n"@;
        assert(bullets(items) =~= a + line + (b + more));
    }
}

/// The report names every task that is done, on a line of its own.
pub proof fn reports_name_done_tasks(w: Shown, k: int)
    requires
        w.board matches Some(b) && 0 <= k < b.tasks.len() && b.tasks[k].state is Done,
    ensures
        exists|a: Seq<char>, b: Seq<char>|
            report_of(w) == #[trigger] (a + ("- "@ + w.board->0.tasks[k].title + "\n"@) + b),
{
    let tasks = w.board->0.tasks;
    let titles = titles_done(tasks);
    done_titles_are_of_done_tasks(tasks, k, tasks[k].title);
    let i = choose|i: int| 0 <= i < titles.len() && titles[i] == tasks[k].title;
    lemma_bullets(titles, i);
    let line = "- "@ + titles[i] + "\n"@;
    let (a, b) = choose|a: Seq<char>, b: Seq<char>|
        bullets(titles) == #[trigger] (a + ("- "@ + titles[i] + "\n"@) + b);
    let goal = match w.goal {
        Some(g) => g,
        None => "Run report"@,
    };
    let head = "# "@ + goal + "\n\n## Completed work\n"@;
    let tail = "\n"@ + dec(titles.len())
        + " task(s) completed; results are recorded in the knowledge store and the board is fully terminal.\n"@;
    assert(report_of(w) =~= (head + a) + line + (b + tail));
}

// ---------------------------------------------------------------------------
// Team agents and meta-agents.
// ---------------------------------------------------------------------------

/// Work on a claimed task is a note, a message or a search, whichever is on offer: the note speaks of the
/// task's title; the message goes to the task's team, or to the orchestrator for a task without one; the
/// search looks for a word of the title.
pub proof fn work_is_about_the_claimed_task(d: Draws, tools: ShownTools, claim: ShownClaim, i: int)
    ensures
        0 <= i < work_verbs(tools).len() ==> tools.offers(work_verbs(tools)[i]) && (work_verbs(
            tools,
        )[i] == "write_knowledge"@ || work_verbs(tools)[i] == "post_message"@ || work_verbs(
            tools,
        )[i] == "search_knowledge"@),
        tools.offers("write_knowledge"@) ==> work_verbs(tools).len() > 0,
        work_args(d, "write_knowledge"@, claim).0 matches JsonView::Object(fields) && {
            &&& fields.len() == 1 && fields[0].0 == "text"@
            &&& fields[0].1 matches JsonView::Text(text) && text.take(claim.title.len() as int)
                == claim.title && text.len() >= claim.title.len()
        },
        work_args(d, "post_message"@, claim).0 matches JsonView::Object(fields) && {
            &&& fields.len() == 2 && fields[0].0 == "body"@
            &&& fields[1] == match claim.team {
                Some(team) => ("team"@, JsonView::Text(team)),
                None => ("to"@, JsonView::Text("orchestrator"@)),
            }
        },
        topics(Some(claim.title)).len() > 0 ==> work_args(d, "search_knowledge"@, claim).0
            == JsonView::Object(seq![("query"@, JsonView::Text(topics(Some(claim.title))[0]))]),
{
    reveal_strlit("write_knowledge");
    reveal_strlit("post_message");
    reveal_strlit("search_knowledge");
    assert("write_knowledge"@[0] == 'w' && "post_message"@[0] == 'p' && "search_knowledge"@[0]
        == 's');
    let verbs = work_verbs(tools);
    if tools.offers("write_knowledge"@) {
        assert(verbs[0] == "write_knowledge"@);
    }
    let args = work_args(d, "write_knowledge"@, claim).0;
    let text = args->Object_0[0].1->Text_0;
    assert(text.take(claim.title.len() as int) =~= claim.title);
}

/// A result names the title of the task that it completes.
pub proof fn results_name_their_task(d: Draws, title: Seq<char>)
    ensures
        result_of(d, title).0 matches JsonView::Object(fields) && {
            &&& fields.len() == 1 && fields[0].0 == "result"@
            &&& fields[0].1 matches JsonView::Text(text) && text.len() > title.len() && text.take(
                title.len() as int,
            ) == title
        },
{
    reveal_strlit(".");
    let text = result_of(d, title).0->Object_0[0].1->Text_0;
    assert(text.take(title.len() as int) =~= title);
}

proof fn lemma_idle(agents: Seq<ShownAgent>, i: int)
    ensures
        0 <= i < idle_generalists(agents).len() ==> agents.contains(idle_generalists(agents)[i])
            && is_idle_generalist(idle_generalists(agents)[i]),
    decreases agents.len(),
{
    if agents.len() > 0 {
        let front = agents.drop_last();
        lemma_idle(front, i);
        let rest = idle_generalists(front);
        if 0 <= i < rest.len() {
            let k = choose|k: int| 0 <= k < front.len() && front[k] == rest[i];
            assert(agents[k] == rest[i]);
        } else if i == rest.len() && idle_generalists(agents).len() > rest.len() {
            assert(agents[agents.len() - 1] == agents.last());
        }
    }
}

proof fn lemma_busy(agents: Seq<ShownAgent>, i: int)
    ensures
        0 <= i < tasks_in_work(agents).len() ==> exists|k: int|
            0 <= k < agents.len() && (#[trigger] agents[k]).state == (AgentStateLine::Working {
                task: tasks_in_work(agents)[i],
            }),
    decreases agents.len(),
{
    if agents.len() > 0 {
        let front = agents.drop_last();
        lemma_busy(front, i);
        let rest = tasks_in_work(front);
        if 0 <= i < rest.len() {
            let k = choose|k: int|
                0 <= k < front.len() && (#[trigger] front[k]).state == (AgentStateLine::Working {
                    task: rest[i],
                });
            assert(agents[k].state == (AgentStateLine::Working { task: rest[i] }));
        } else if i == rest.len() && tasks_in_work(agents).len() > rest.len() {
            assert(agents[agents.len() - 1].state == (AgentStateLine::Working {
                task: tasks_in_work(agents)[i],
            }));
        }
    }
}

/// The agents that are up for another specialty are idle generalists that the prompt shows, and the tasks
/// that are up for moving are being worked on.
pub proof fn proposals_are_about_what_is_shown(agents: Seq<ShownAgent>, i: int)
    ensures
        0 <= i < idle_generalists(agents).len() ==> agents.contains(idle_generalists(agents)[i])
            && idle_generalists(agents)[i].state == AgentStateLine::Idle && idle_generalists(
            agents,
        )[i].specialty == "generalist"@,
        0 <= i < tasks_in_work(agents).len() ==> exists|k: int|
            0 <= k < agents.len() && (#[trigger] agents[k]).state == (AgentStateLine::Working {
                task: tasks_in_work(agents)[i],
            }),
{
    lemma_idle(agents, i);
    lemma_busy(agents, i);
}

/// A meta-agent uses the judgment tier before the mechanical one, and each tier once.
pub proof fn meta_agents_use_each_tier_once(w: Shown, d: Draws)
    ensures
        ({
            let judged = w.outcomes matches Some(o) && o.judgment_used;
            let turned = w.outcomes matches Some(o) && o.mechanical_used;
            &&& !judged ==> (judgment(w, d).0 matches Some(call) ==> observe(w, d).0
                == PlanView::Calls(seq![call]))
            &&& judged && !turned ==> match observe(w, d).0 {
                PlanView::Calls(calls) => calls.len() == 1 && calls[0].0 == "set_parallelism"@,
                PlanView::Yield(_) => true,
            }
            &&& judged && turned ==> observe(w, d).0 is Yield
            &&& judgment(w, d).0 matches Some(call) ==> (call.0 == "propose_respecialize"@ || call.0
                == "propose_reallocate"@) && w.tools.fit(call.0, call.1)
        }),
{
}

// ---------------------------------------------------------------------------
// Replies.
// ---------------------------------------------------------------------------

proof fn lemma_fits(calls: Seq<PlannedCall>, tools: ShownTools)
    ensures
        (forall|i: int| 0 <= i < calls.len() ==> tools.fit((#[trigger] calls[i]).0, calls[i].1))
            ==> fitting(calls, tools) == calls,
        fitting(calls, tools).len() <= calls.len(),
        forall|i: int|
            0 <= i < fitting(calls, tools).len() ==> calls.contains(
                #[trigger] fitting(calls, tools)[i],
            ),
        calls.len() > 0 && tools.fit(calls[0].0, calls[0].1) ==> fitting(calls, tools).len() > 0
            && fitting(calls, tools)[0] == calls[0],
    decreases calls.len(),
{
    if calls.len() > 0 {
        let front = calls.drop_last();
        lemma_fits(front, tools);
        let rest = fitting(front, tools);
        let all = fitting(calls, tools);
        if forall|i: int| 0 <= i < calls.len() ==> tools.fit((#[trigger] calls[i]).0, calls[i].1) {
            assert forall|i: int| 0 <= i < front.len() implies tools.fit(
                (#[trigger] front[i]).0,
                front[i].1,
            ) by {
                assert(tools.fit(calls[i].0, calls[i].1));
            }
            assert(tools.fit(calls[calls.len() - 1].0, calls[calls.len() - 1].1));
            assert(all =~= calls);
        }
        assert forall|i: int| 0 <= i < all.len() implies calls.contains(#[trigger] all[i]) by {
            if i < rest.len() {
                assert(front.contains(rest[i]));
                let k = choose|k: int| 0 <= k < front.len() && front[k] == rest[i];
                assert(calls[k] == all[i]);
            } else {
                assert(calls[calls.len() - 1] == all[i]);
            }
        }
        if front.len() == 0 {
            assert(rest.len() == 0);
        }
    }
}

/// Of the planned calls those that fit are made, in order, all of them where calls may be parallel and
/// the first where they may not; nothing else is called.
pub proof fn planned_calls_are_made(
    calls: Seq<PlannedCall>,
    tools: ShownTools,
    parallel: Option<bool>,
    i: int,
)
    ensures
        ({
            let made = made_calls(calls, tools, parallel);
            let all_fit = forall|k: int|
                0 <= k < calls.len() ==> tools.fit((#[trigger] calls[k]).0, calls[k].1);
            &&& 0 <= i < made.len() ==> calls.contains(made[i])
            &&& all_fit && parallel != Some(false) ==> made == calls
            &&& all_fit && parallel == Some(false) && calls.len() > 0 ==> made.len() == 1 && made[0]
                == calls[0]
            &&& parallel == Some(false) ==> made.len() <= 1
        }),
{
    lemma_fits(calls, tools);
    let made = made_calls(calls, tools, parallel);
    if 0 <= i < made.len() {
        assert(made[i] == fitting(calls, tools)[i]);
    }
}

/// A reply sends each call under its verb, with its arguments, and under an id that no other call of the
/// reply has.
pub proof fn calls_have_ids_of_their_own(
    calls: Seq<PlannedCall>,
    user: Seq<char>,
    call_seq: u64,
    i: int,
    j: int,
)
    requires
        0 <= i < calls.len(),
        0 <= j < calls.len(),
        calls.len() < u64::MAX,
    ensures
        ({
            let sent = sent_calls(calls, user, call_seq);
            &&& sent.len() == calls.len()
            &&& sent[i].name == calls[i].0
            &&& sent[i].arguments == calls[i].1.text()
            &&& i != j ==> sent[i].id != sent[j].id
        }),
{
    let head = "call_"@ + crate::mock::arc::gist(user) + "_"@ + dec(call_seq as nat) + "_"@;
    let a = dec((i + 1) as nat);
    let b = dec((j + 1) as nat);
    if i != j && head + a == head + b {
        assert((head + a).skip(head.len() as int) =~= a);
        assert((head + b).skip(head.len() as int) =~= b);
        crate::text::number_of_dec((i + 1) as nat, u64::MAX as nat);
        crate::text::number_of_dec((j + 1) as nat, u64::MAX as nat);
    }
}

// ---------------------------------------------------------------------------
// Draws.
// ---------------------------------------------------------------------------

/// A meta-agent that sets the level of work draws it from as many values as there are agents, or
/// from one where none is shown.
pub proof fn levels_are_drawn_among_the_agents(w: Shown, d: Draws, used: bool)
    requires
        w.utilization.len() <= usize::MAX,
    ensures
        mechanical(w, d, used).0 matches PlanView::Calls(calls) ==> {
            &&& !used
            &&& calls.len() == 1
            &&& calls[0].0 == "set_parallelism"@
            &&& w.utilization.len() >= 1 ==> calls[0].1 == JsonView::Object(
                seq![("target"@, JsonView::number(d.size(w.utilization.len() as usize).0 as u64))],
            )
            &&& w.utilization.len() == 0 ==> calls[0].1 == JsonView::Object(
                seq![("target"@, JsonView::number(d.size(1).0 as u64))],
            )
        },
{
}

/// A task is proposed for another agent by a draw among all that are in work, and an idle
/// generalist for a specialty by a draw among all of them.
pub proof fn proposals_are_drawn_among_all(w: Shown, d: Draws)
    ensures
        ({
            let tasks = tasks_in_work(w.utilization);
            let idle = idle_generalists(w.utilization);
            &&& reallocation(w, d).0 matches Some(call) ==> {
                &&& tasks.len() > 0
                &&& call.0 == "propose_reallocate"@
                &&& call.1 is Object
                &&& call.1->Object_0.contains(
                    ("task"@, JsonView::number(tasks[d.index(tasks.len() as usize).0 as int])),
                )
            }
            &&& tasks.len() == 0 ==> reallocation(w, d).0 is None
            &&& judgment(w, d).0 matches Some(call) ==> (call.0 == "propose_respecialize"@ ==> {
                &&& idle.len() > 0
                &&& call.1 is Object
                &&& call.1->Object_0.contains(
                    (
                        "agent"@,
                        JsonView::Text(idle[d.index(idle.len() as usize).0 as int].agent),
                    ),
                )
            })
        }),
{
    reveal_strlit("propose_reallocate");
    reveal_strlit("propose_respecialize");
    assert("propose_reallocate"@.len() != "propose_respecialize"@.len());
    let tasks = tasks_in_work(w.utilization);
    let idle = idle_generalists(w.utilization);
    if let Some(call) = reallocation(w, d).0 {
        let f = call.1->Object_0;
        assert(f[1] == ("task"@, JsonView::number(tasks[d.index(tasks.len() as usize).0 as int])));
    }
    if let Some(call) = judgment(w, d).0 {
        if call.0 == "propose_respecialize"@ {
            let f = call.1->Object_0;
            assert(f[0] == (
                "agent"@,
                JsonView::Text(idle[d.index(idle.len() as usize).0 as int].agent),
            ));
        }
    }
}

/// A new task is about one of the goal's topics, the one that a draw gives counted on from the
/// task's number, and its title and its description start with the same verb.
pub proof fn tasks_are_about_the_goal(d: Draws, topics: Seq<Seq<char>>, index: nat)
    ensures
        ({
            let (verb, d1) = picked(d, Phrase::TaskVerb);
            let (noun, d2) = picked(d1, Phrase::TaskNoun);
            let topic = if topics.len() == 0 {
                "core"@
            } else {
                topics[(index + d2.index(topics.len() as usize).0) % (topics.len() as int)]
            };
            let (title, description, _) = task_text_of(d, topics, index);
            &&& title == verb + " the "@ + topic + " "@ + noun
            &&& (verb + " work covering "@ + topic).is_prefix_of(description)
        }),
{
    let (verb, d1) = picked(d, Phrase::TaskVerb);
    let (noun, d2) = picked(d1, Phrase::TaskNoun);
    let topic = if topics.len() == 0 {
        "core"@
    } else {
        topics[(index + d2.index(topics.len() as usize).0) % (topics.len() as int)]
    };
    let front = verb + " work covering "@ + topic;
    assert(task_text_of(d, topics, index).1 =~= front + " toward the goal."@);
}

/// The topics of a goal are its words of four letters and more, in small letters and in their
/// order.
pub proof fn topics_are_the_longer_words(ws: Seq<Seq<char>>, word: Seq<char>)
    ensures
        long_words(Seq::empty()).len() == 0,
        word.len() >= 4 ==> long_words(ws.push(word)) == long_words(ws).push(lowercase(word)),
        word.len() < 4 ==> long_words(ws.push(word)) == long_words(ws),
        topics(None).len() == 0,
{
    assert(ws.push(word).drop_last() =~= ws);
    assert(ws.push(word).last() == word);
}

/// A run has up to eight tasks, by its seed alone; an agent does one to three bits of work on a
/// task, by the seed, its handle and the task.
pub proof fn amounts_are_drawn_from_the_seed(seed: u64, handle: Seq<char>, task: u64)
    ensures
        budget_of(seed) == stream(seed, "openteam-arc/task-budget"@, 0).range(1, 8).0,
        quota_of(seed, handle, task) == stream(
            seed,
            "openteam-arc/work-quota/"@ + handle,
            task,
        ).range(1, 3).0,
{
}

} // verus!
