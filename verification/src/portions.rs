//! What a prompt shows of what it could show, told from the lines, the budgets and the counts.
use crate::agent::{AgentId, Role};
use crate::board::{lemma_searches, BoardView, StateView};
use crate::context::{
    all_served, blocks, budget_of, cost, degraded_in, drained_in, fitting, low32, role_sections,
    section, serve, served, shed_board, shed_newest, shed_oldest, shows_terminal, skeleton_text,
    victim, CharCountTokenizer, ProfileView, SceneView, SectionKind, SectionSpec, SectionView,
    Served, TokenCounter,
};
use crate::directive::DirectiveView;
use crate::ids::{MessageId, TaskId};
use crate::knowledge::ScoredEntry;
use crate::message::{mail_for, MessageView};
use crate::text::{dec, joined, lines};
use crate::turn::{mail_lines, outcome_lines, pending_lines, query_of, scene};
use crate::world::{lemma_slot_at, slot_at, WorldView};
use vstd::prelude::*;

verus! {

// ---------------------------------------------------------------------------
// Lines under a budget.
// ---------------------------------------------------------------------------

/// The tokens of lines are those of each line together.
pub proof fn costs_add_up<C: TokenCounter>(c: &C, a: Seq<Seq<char>>, b: Seq<Seq<char>>)
    ensures
        cost(c, a + b) == cost(c, a) + cost(c, b),
        a.len() == 1 ==> cost(c, a) == c.tokens(a[0]),
        cost(c, Seq::empty()) == 0,
    decreases b.len(),
{
    if a.len() == 1 {
        reveal_with_fuel(cost, 2);
    }
    if b.len() == 0 {
        assert(a + b =~= a);
    } else {
        costs_add_up(c, a, b.drop_last());
        assert((a + b).drop_last() =~= a + b.drop_last());
    }
}

/// Four characters are a token, and so are fewer at the end; no text is free.
pub proof fn tokens_are_four_characters(text: Seq<char>)
    ensures
        CharCountTokenizer.tokens(text) * 4 >= text.len(),
        CharCountTokenizer.tokens(text) * 4 < text.len() + 4,
{
}

proof fn lemma_newest<C: TokenCounter>(c: &C, list: Seq<Seq<char>>, keep: nat, allowed: nat)
    ensures
        ({
            let (kept, dropped) = shed_newest(c, list, keep, allowed);
            &&& kept.len() + dropped == list.len()
            &&& kept == list.take(kept.len() as int)
            &&& cost(c, kept) <= allowed || kept.len() <= keep || kept.len() == 0
            &&& dropped > 0 ==> cost(c, list.take(kept.len() as int + 1)) > allowed && kept.len() >= keep
        }),
    decreases list.len(),
{
    let (kept, dropped) = shed_newest(c, list, keep, allowed);
    if list.len() == 0 || list.len() <= keep || cost(c, list) <= allowed {
        assert(list.take(list.len() as int) =~= list);
    } else {
        let front = list.drop_last();
        lemma_newest(c, front, keep, allowed);
        assert(front.take(kept.len() as int) =~= list.take(kept.len() as int));
        if kept.len() < front.len() {
            assert(front.take(kept.len() as int + 1) =~= list.take(kept.len() as int + 1));
        } else {
            assert(list.take(kept.len() as int + 1) =~= list);
        }
    }
}

/// Of the search hits a prompt shows the first ones, as many as the budget holds: every one if they
/// all fit, and otherwise so many that one more would not. The others are counted as dropped.
pub proof fn hits_are_shown_as_far_as_they_fit<C: TokenCounter>(
    c: &C,
    allowed: nat,
    view: SceneView,
)
    ensures
        ({
            let s = section(c, SectionKind::KnowledgeRetrievals, allowed, view);
            let all = view.retrievals;
            let n = all.len() - s.dropped;
            &&& 0 <= n
            &&& n > 0 ==> s.lines == all.take(n)
            &&& n == 0 ==> s.lines == seq!["(none)"@]
            &&& cost(c, all.take(n)) <= allowed
            &&& s.dropped > 0 ==> cost(c, all.take(n + 1)) > allowed
            &&& cost(c, all) <= allowed ==> s.dropped == 0
            &&& cost(c, all) <= allowed && all.len() > 0 ==> s.lines == all
            &&& s.drained is None
        }),
{
    let all = view.retrievals;
    lemma_newest(c, all, 0, allowed);
    let (kept, dropped) = shed_newest(c, all, 0, allowed);
    if cost(c, all) <= allowed {
        assert(all.take(all.len() as int) =~= all);
    }
    if kept.len() == 0 {
        assert(cost(c, kept) == 0);
    }
}

/// Of the metrics a meta-agent's prompt shows the first lines, as many as the budget holds but at least
/// one; the others are counted as dropped.
pub proof fn metrics_are_shown_as_far_as_they_fit<C: TokenCounter>(
    c: &C,
    allowed: nat,
    view: SceneView,
)
    ensures
        ({
            let s = section(c, SectionKind::MetricsDigest, allowed, view);
            let all = match view.metrics_digest {
                Some(text) => lines(text),
                None => Seq::empty(),
            };
            let n = all.len() - s.dropped;
            &&& 0 <= n
            &&& all.len() > 0 ==> n > 0 && s.lines == all.take(n)
            &&& all.len() == 0 ==> s.lines == seq!["(none)"@]
            &&& n > 1 ==> cost(c, all.take(n)) <= allowed
            &&& s.dropped > 0 ==> cost(c, all.take(n + 1)) > allowed
            &&& cost(c, all) <= allowed ==> s.dropped == 0
        }),
{
    let all = match view.metrics_digest {
        Some(text) => lines(text),
        None => Seq::empty(),
    };
    lemma_newest(c, all, 1, allowed);
}

proof fn lemma_oldest<C: TokenCounter>(c: &C, list: Seq<Seq<char>>, allowed: nat)
    ensures
        ({
            let (kept, dropped) = shed_oldest(c, list, allowed);
            &&& kept.len() + dropped == list.len()
            &&& kept == list.skip(dropped as int)
            &&& list.len() > 0 ==> kept.len() > 0
            &&& kept.len() > 1 ==> cost(c, kept) <= allowed
            &&& dropped > 0 ==> cost(c, list.skip(dropped - 1)) > allowed
        }),
    decreases list.len(),
{
    let (kept, dropped) = shed_oldest(c, list, allowed);
    if list.len() <= 1 || cost(c, list) <= allowed {
        assert(list.skip(0) =~= list);
    } else {
        let rest = list.remove(0);
        lemma_oldest(c, rest, allowed);
        assert(rest =~= list.skip(1));
        assert(rest.skip(dropped - 1) =~= list.skip(dropped as int));
        if dropped > 1 {
            assert(rest.skip(dropped - 2) =~= list.skip(dropped - 1));
        } else {
            assert(list.skip(0) =~= list);
        }
    }
}

/// Of what a team agent did lately its prompt shows the newest lines, as many as the budget holds but at
/// least one; if older ones are dropped, a first line says how many.
pub proof fn newest_deeds_are_shown<C: TokenCounter>(c: &C, allowed: nat, view: SceneView)
    ensures
        ({
            let s = section(c, SectionKind::RecentActivity, allowed, view);
            let all = view.window_lines;
            let shown = all.skip(s.dropped as int);
            &&& s.dropped <= all.len()
            &&& all.len() > 0 ==> s.dropped < all.len()
            &&& all.len() == 0 ==> s.lines == seq!["(none)"@]
            &&& s.dropped == 0 && all.len() > 0 ==> s.lines == all
            &&& s.dropped > 0 ==> s.lines == seq![
                "(degraded: "@ + dec(s.dropped) + " dropped)"@,
            ] + shown
            &&& shown.len() > 1 ==> cost(c, shown) <= allowed
            &&& s.dropped > 0 ==> cost(c, all.skip(s.dropped - 1)) > allowed
        }),
{
    lemma_oldest(c, view.window_lines, allowed);
    assert(view.window_lines.skip(0) =~= view.window_lines);
}

/// Of the events a meta-agent's prompt shows the newest, as many as the budget holds but at least one,
/// and does not count the others.
pub proof fn newest_events_are_shown<C: TokenCounter>(c: &C, allowed: nat, view: SceneView)
    ensures
        ({
            let s = section(c, SectionKind::RecentEvents, allowed, view);
            let all = view.recent_event_lines;
            &&& s.dropped == 0
            &&& all.len() == 0 ==> s.lines == seq!["(none)"@]
            &&& all.len() > 0 ==> {
                let k = all.len() - s.lines.len();
                &&& 0 <= k < all.len()
                &&& s.lines == all.skip(k)
                &&& s.lines.len() > 1 ==> cost(c, s.lines) <= allowed
                &&& k > 0 ==> cost(c, all.skip(k - 1)) > allowed
            }
        }),
{
    lemma_oldest(c, view.recent_event_lines, allowed);
}

proof fn lemma_fits<C: TokenCounter>(c: &C, queue: Seq<Seq<char>>, i: int, used: nat, allowed: nat)
    requires
        0 <= i <= queue.len(),
        used == cost(c, queue.take(i)),
        i > 1 ==> used <= allowed,
    ensures
        ({
            let n = fitting(c, queue, i, used, allowed);
            &&& i <= n <= queue.len()
            &&& queue.len() > 0 ==> n > 0
            &&& n > 1 ==> cost(c, queue.take(n)) <= allowed
            &&& n < queue.len() ==> cost(c, queue.take(n + 1)) > allowed
        }),
    decreases queue.len() - i,
{
    if i < queue.len() {
        assert(queue.take(i + 1).drop_last() =~= queue.take(i));
        if i == 0 || used + c.tokens(queue[i]) <= allowed {
            lemma_fits(c, queue, i + 1, used + c.tokens(queue[i]), allowed);
        }
    }
}

/// Of the queued messages a prompt shows the oldest, as many as the budget holds but at least one; what
/// it shows is what it delivers; and if others wait, a first line says how many.
pub proof fn messages_are_shown_as_far_as_they_fit<C: TokenCounter>(
    c: &C,
    allowed: nat,
    view: SceneView,
)
    ensures
        ({
            let s = section(c, SectionKind::FreshMessages, allowed, view);
            let all = view.queued_messages;
            let n = all.len() - s.dropped;
            &&& 0 <= n
            &&& s.drained == Some(n as nat)
            &&& all.len() > 0 ==> n > 0
            &&& all.len() == 0 ==> s.lines == seq!["(none)"@]
            &&& s.dropped == 0 && all.len() > 0 ==> s.lines == all
            &&& s.dropped > 0 ==> s.lines == seq![
                "(degraded: "@ + dec(s.dropped) + " dropped)"@,
            ] + all.take(n)
            &&& n > 1 ==> cost(c, all.take(n)) <= allowed
            &&& s.dropped > 0 ==> cost(c, all.take(n + 1)) > allowed
        }),
{
    let all = view.queued_messages;
    assert(all.take(0) =~= Seq::<Seq<char>>::empty());
    lemma_fits(c, all, 0, 0, allowed);
    assert(all.take(all.len() as int) =~= all);
}

/// The lines are some of the others, in the same order.
pub open spec fn picked(part: Seq<Seq<char>>, all: Seq<Seq<char>>) -> bool
    decreases all.len(),
{
    if all.len() == 0 {
        part.len() == 0
    } else {
        picked(part, all.drop_last()) || (part.len() > 0 && part.last() == all.last() && picked(
            part.drop_last(),
            all.drop_last(),
        ))
    }
}

/// How many lines show a task that is neither done nor cancelled.
pub open spec fn live_lines(list: Seq<Seq<char>>) -> nat
    decreases list.len(),
{
    if list.len() == 0 {
        0
    } else {
        live_lines(list.drop_last()) + if shows_terminal(list.last()) {
            0nat
        } else {
            1nat
        }
    }
}

proof fn lemma_picked_self(all: Seq<Seq<char>>)
    ensures
        picked(all, all),
    decreases all.len(),
{
    if all.len() > 0 {
        lemma_picked_self(all.drop_last());
    }
}

proof fn lemma_picked_remove(part: Seq<Seq<char>>, all: Seq<Seq<char>>, i: int)
    requires
        0 <= i < all.len(),
        picked(part, all.remove(i)),
    ensures
        picked(part, all),
    decreases all.len(),
{
    let rest = all.remove(i);
    let last = all.len() - 1;
    if i == last {
        assert(rest =~= all.drop_last());
    } else {
        assert(rest.drop_last() =~= all.drop_last().remove(i));
        assert(rest.last() == all.last());
        if picked(part, rest.drop_last()) {
            lemma_picked_remove(part, all.drop_last(), i);
        } else {
            lemma_picked_remove(part.drop_last(), all.drop_last(), i);
        }
    }
}

proof fn lemma_live_remove(list: Seq<Seq<char>>, i: int)
    requires
        0 <= i < list.len(),
    ensures
        live_lines(list.remove(i)) + (if shows_terminal(list[i]) {
            0nat
        } else {
            1nat
        }) == live_lines(list),
    decreases list.len(),
{
    if i == list.len() - 1 {
        assert(list.remove(i) =~= list.drop_last());
    } else {
        lemma_live_remove(list.drop_last(), i);
        assert(list.remove(i).drop_last() =~= list.drop_last().remove(i));
    }
}

proof fn lemma_choice(list: Seq<Seq<char>>, n: int)
    requires
        0 <= n <= list.len(),
        list.len() > 0,
    ensures
        ({
            let k = victim(list, n);
            &&& 0 <= k < list.len()
            &&& shows_terminal(list[k]) || forall|i: int|
                0 <= i < n ==> !shows_terminal(#[trigger] list[i])
        }),
    decreases n,
{
    if n > 0 {
        lemma_choice(list, n - 1);
        let k = victim(list, n);
        if !shows_terminal(list[k]) {
            assert forall|i: int| 0 <= i < n implies !shows_terminal(#[trigger] list[i]) by {
                if i == n - 1 {
                    assert(!shows_terminal(list[n - 1]));
                }
            }
        }
    }
}

proof fn lemma_no_terminal(list: Seq<Seq<char>>)
    ensures
        live_lines(list) <= list.len(),
        (forall|i: int| 0 <= i < list.len() ==> !shows_terminal(#[trigger] list[i]))
            <==> live_lines(list) == list.len(),
    decreases list.len(),
{
    if list.len() > 0 {
        let front = list.drop_last();
        lemma_no_terminal(front);
        if live_lines(list) == list.len() {
            assert forall|i: int| 0 <= i < list.len() implies !shows_terminal(
                #[trigger] list[i],
            ) by {
                if i < front.len() {
                    assert(!shows_terminal(front[i]));
                }
            }
        }
        if forall|i: int| 0 <= i < list.len() ==> !shows_terminal(#[trigger] list[i]) {
            assert forall|i: int| 0 <= i < front.len() implies !shows_terminal(
                #[trigger] front[i],
            ) by {
                assert(!shows_terminal(list[i]));
            }
            assert(!shows_terminal(list[list.len() - 1]));
        }
    }
}

proof fn lemma_board<C: TokenCounter>(c: &C, list: Seq<Seq<char>>, health: nat, allowed: nat)
    ensures
        ({
            let (kept, dropped) = shed_board(c, list, health, allowed);
            &&& kept.len() + dropped == list.len()
            &&& picked(kept, list)
            &&& kept.len() == 0 || cost(c, kept) + health <= allowed
            &&& live_lines(kept) == live_lines(list) || live_lines(kept) == kept.len()
            &&& dropped > 0 ==> cost(c, list) + health > allowed
        }),
    decreases list.len(),
{
    let (kept, dropped) = shed_board(c, list, health, allowed);
    lemma_no_terminal(list);
    if list.len() == 0 || cost(c, list) + health <= allowed {
        lemma_picked_self(list);
    } else {
        let k = victim(list, list.len() as int);
        lemma_choice(list, list.len() as int);
        let rest = list.remove(k);
        lemma_board(c, rest, health, allowed);
        lemma_picked_remove(kept, list, k);
        lemma_live_remove(list, k);
        lemma_no_terminal(rest);
        lemma_no_terminal(kept);
        if !shows_terminal(list[k]) {
            lemma_picked_live(kept, rest);
        }
    }
}

proof fn lemma_picked_live(part: Seq<Seq<char>>, all: Seq<Seq<char>>)
    requires
        picked(part, all),
        live_lines(all) == all.len(),
    ensures
        live_lines(part) == part.len(),
    decreases all.len(),
{
    if all.len() > 0 {
        lemma_no_terminal(all.drop_last());
        if picked(part, all.drop_last()) {
            lemma_picked_live(part, all.drop_last());
        } else {
            lemma_picked_live(part.drop_last(), all.drop_last());
        }
    }
}

/// Of the tasks a prompt shows as many as the budget holds, in their order, and counts the others as
/// dropped. A task that is still to be done is dropped only when no done or cancelled one is left to
/// drop. The line on the run's health, where there is one, comes last and always.
pub proof fn live_tasks_are_shown_first<C: TokenCounter>(c: &C, allowed: nat, view: SceneView)
    ensures
        ({
            let s = section(c, SectionKind::BoardDigest, allowed, view);
            let health = match view.run_health {
                Some(line) => c.tokens(line),
                None => 0,
            };
            let tail: int = if view.run_health is Some {
                1
            } else {
                0
            };
            let n = view.board_lines.len() - s.dropped;
            let shown = s.lines.take(n);
            &&& 0 <= n
            &&& view.run_health matches Some(line) ==> s.lines.len() > 0 && s.lines.last() == line
            &&& n > 0 ==> s.lines.len() == n + tail && picked(shown, view.board_lines)
            &&& n == 0 ==> s.lines.len() == 1 + tail && s.lines[0] == "(empty)"@
            &&& n > 0 ==> cost(c, shown) + health <= allowed
            &&& n > 0 && live_lines(shown) < n ==> live_lines(shown) == live_lines(
                view.board_lines,
            )
            &&& cost(c, view.board_lines) + health <= allowed ==> s.dropped == 0
            &&& s.drained is None
        }),
{
    let health = match view.run_health {
        Some(line) => c.tokens(line),
        None => 0,
    };
    let s = section(c, SectionKind::BoardDigest, allowed, view);
    let (kept, dropped) = shed_board(c, view.board_lines, health, allowed);
    lemma_board(c, view.board_lines, health, allowed);
    if kept.len() > 0 {
        assert(s.lines.take(kept.len() as int) =~= kept);
    }
}

/// The goal is shown as it is, the claimed task by its line, and directives and their outcomes whole;
/// where there is none, a placeholder says so.
pub proof fn some_sections_are_always_whole<C: TokenCounter>(c: &C, allowed: nat, view: SceneView)
    ensures
        section(c, SectionKind::Goal, allowed, view).lines == seq![view.goal],
        section(c, SectionKind::ClaimedTask, allowed, view).lines == seq![
            match view.claimed_line {
                Some(line) => line,
                None => "(none)"@,
            },
        ],
        section(c, SectionKind::Directives, allowed, view).lines == (if view.directive_lines.len()
            > 0 {
            view.directive_lines
        } else {
            seq!["(none)"@]
        }),
        section(c, SectionKind::DirectiveOutcomes, allowed, view).lines == (
        if view.outcome_lines.len() > 0 {
            view.outcome_lines
        } else {
            seq!["(none issued)"@]
        }),
        section(c, SectionKind::Goal, allowed, view).dropped == 0,
        section(c, SectionKind::ClaimedTask, allowed, view).dropped == 0,
        section(c, SectionKind::Directives, allowed, view).dropped == 0,
        section(c, SectionKind::DirectiveOutcomes, allowed, view).dropped == 0,
{
}

// ---------------------------------------------------------------------------
// The whole prompt.
// ---------------------------------------------------------------------------

/// A place comes up before another: by priority, then by the order of the policy.
pub open spec fn earlier(specs: Seq<SectionSpec>, j: int, p: int, i: int) -> bool {
    specs[j].priority < p || (specs[j].priority == p && j < i)
}

/// The tokens of the first `n` places that have been served.
pub open spec fn spent<C: TokenCounter>(
    c: &C,
    sections: Seq<Option<SectionView>>,
    n: int,
) -> nat
    decreases n,
{
    if n <= 0 {
        0
    } else {
        spent(c, sections, n - 1) + match sections[n - 1] {
            Some(s) => cost(c, s.lines),
            None => 0,
        }
    }
}

proof fn lemma_spent_update<C: TokenCounter>(
    c: &C,
    sections: Seq<Option<SectionView>>,
    i: int,
    s: SectionView,
    n: int,
)
    requires
        0 <= i < sections.len(),
        0 <= n <= sections.len(),
        sections[i] is None,
    ensures
        spent(c, sections.update(i, Some(s)), n) == spent(c, sections, n) + if i < n {
            cost(c, s.lines)
        } else {
            0
        },
    decreases n,
{
    if n > 0 {
        lemma_spent_update(c, sections, i, s, n - 1);
    }
}

/// What the sections that come up before a place have used.
pub open spec fn used_before<C: TokenCounter>(
    c: &C,
    specs: Seq<SectionSpec>,
    sections: Seq<Option<SectionView>>,
    i: int,
    n: int,
) -> nat
    decreases n,
{
    if n <= 0 {
        0
    } else {
        used_before(c, specs, sections, i, n - 1) + if earlier(
            specs,
            n - 1,
            specs[i].priority as int,
            i,
        ) && sections[n - 1] is Some {
            cost(c, sections[n - 1]->0.lines)
        } else {
            0
        }
    }
}

proof fn lemma_used_before<C: TokenCounter>(
    c: &C,
    specs: Seq<SectionSpec>,
    now: Seq<Option<SectionView>>,
    all: Seq<Option<SectionView>>,
    i: int,
    n: int,
)
    requires
        0 <= n <= specs.len(),
        now.len() == specs.len(),
        all.len() == specs.len(),
        forall|j: int|
            0 <= j < specs.len() ==> (#[trigger] now[j]) == if earlier(
                specs,
                j,
                specs[i].priority as int,
                i,
            ) {
                all[j]
            } else {
                None
            },
    ensures
        spent(c, now, n) == used_before(c, specs, all, i, n),
    decreases n,
{
    if n > 0 {
        lemma_used_before(c, specs, now, all, i, n - 1);
    }
}

/// What a place is allowed: its budget, or what the sections that come up before it have left of the
/// pool, if that is less.
pub open spec fn share<C: TokenCounter>(
    c: &C,
    specs: Seq<SectionSpec>,
    pool: Option<nat>,
    sections: Seq<Option<SectionView>>,
    i: int,
) -> nat {
    let budget = specs[i].budget as nat;
    match pool {
        None => budget,
        Some(total) => {
            let gone = used_before(c, specs, sections, i, specs.len() as int);
            if gone >= total {
                0
            } else if total - gone < budget {
                (total - gone) as nat
            } else {
                budget
            }
        },
    }
}

spec fn on_track<C: TokenCounter>(
    c: &C,
    specs: Seq<SectionSpec>,
    view: SceneView,
    pool: Option<nat>,
    s: Served,
    p: int,
    i: int,
) -> bool {
    &&& s.sections.len() == specs.len()
    &&& s.pool is Some <==> pool is Some
    &&& pool matches Some(total) ==> s.pool->0 == (if spent(c, s.sections, specs.len() as int)
        >= total {
        0int
    } else {
        total - spent(c, s.sections, specs.len() as int)
    })
    &&& forall|j: int|
        0 <= j < specs.len() ==> ((#[trigger] s.sections[j]) is Some <==> earlier(specs, j, p, i))
}

proof fn lemma_on_track<C: TokenCounter>(
    c: &C,
    specs: Seq<SectionSpec>,
    view: SceneView,
    pool: Option<nat>,
    p: int,
    i: int,
)
    requires
        0 <= p,
        0 <= i <= specs.len(),
    ensures
        on_track(c, specs, view, pool, served(c, specs, view, pool, p, i), p, i),
    decreases p, i,
{
    let n = specs.len() as int;
    let s = served(c, specs, view, pool, p, i);
    if i > 0 {
        lemma_on_track(c, specs, view, pool, p, i - 1);
        let before = served(c, specs, view, pool, p, i - 1);
        if specs[i - 1].priority == p {
            let shown = s.sections[i - 1]->0;
            lemma_spent_update(c, before.sections, i - 1, shown, n);
        }
    } else if p > 0 {
        lemma_on_track(c, specs, view, pool, p - 1, n);
    } else {
        lemma_spent_none(c, s.sections, n);
    }
}

proof fn lemma_spent_none<C: TokenCounter>(c: &C, sections: Seq<Option<SectionView>>, n: int)
    requires
        0 <= n <= sections.len(),
        forall|j: int| 0 <= j < sections.len() ==> (#[trigger] sections[j]) is None,
    ensures
        spent(c, sections, n) == 0,
    decreases n,
{
    if n > 0 {
        lemma_spent_none(c, sections, n - 1);
    }
}

proof fn lemma_kept<C: TokenCounter>(
    c: &C,
    specs: Seq<SectionSpec>,
    view: SceneView,
    pool: Option<nat>,
    p: int,
    i: int,
    q: int,
    k: int,
    j: int,
)
    requires
        0 <= p <= q,
        0 <= i <= specs.len(),
        0 <= k <= specs.len(),
        p < q || i <= k,
        0 <= j < specs.len(),
        served(c, specs, view, pool, p, i).sections[j] is Some,
    ensures
        served(c, specs, view, pool, q, k).sections[j] == served(
            c,
            specs,
            view,
            pool,
            p,
            i,
        ).sections[j],
    decreases q, k,
{
    lemma_on_track(c, specs, view, pool, p, i);
    lemma_on_track(c, specs, view, pool, q, k);
    if p == q && i == k {
    } else if k > 0 && (p < q || i < k) {
        lemma_kept(c, specs, view, pool, p, i, q, k - 1, j);
        lemma_on_track(c, specs, view, pool, q, k - 1);
        if specs[k - 1].priority == q && j == k - 1 {
            assert(earlier(specs, j, p, i));
        }
    } else if q > 0 {
        lemma_kept(c, specs, view, pool, p, i, q - 1, specs.len() as int, j);
    }
}

/// A prompt has every section of its policy, in the order of the policy. Each is cut to its budget, or
/// to what is left of the pool if that is less; the pool is spent by priority, and within one priority
/// in the order of the policy.
pub proof fn every_section_gets_its_share<C: TokenCounter>(
    c: &C,
    specs: Seq<SectionSpec>,
    view: SceneView,
    pool: Option<nat>,
    i: int,
)
    requires
        0 <= i < specs.len(),
    ensures
        ({
            let all = all_served(c, specs, view, pool);
            &&& all.len() == specs.len()
            &&& all[i] == Some(
                section(c, specs[i].kind, share(c, specs, pool, all, i), view),
            )
            &&& pool is None ==> all[i] == Some(
                section(c, specs[i].kind, specs[i].budget as nat, view),
            )
        }),
{
    let n = specs.len() as int;
    let p = specs[i].priority as int;
    let all = all_served(c, specs, view, pool);
    let before = served(c, specs, view, pool, p, i);
    let after = served(c, specs, view, pool, p, i + 1);
    lemma_on_track(c, specs, view, pool, 255, n);
    lemma_on_track(c, specs, view, pool, p, i);
    lemma_on_track(c, specs, view, pool, p, i + 1);
    assert(after == serve(c, specs, view, before, i));
    assert(after.sections[i] is Some);
    lemma_kept(c, specs, view, pool, p, i + 1, 255, n, i);
    assert forall|j: int| 0 <= j < n implies (#[trigger] before.sections[j]) == if earlier(
        specs,
        j,
        p,
        i,
    ) {
        all[j]
    } else {
        None
    } by {
        if before.sections[j] is Some {
            lemma_kept(c, specs, view, pool, p, i, 255, n, j);
        }
    }
    lemma_used_before(c, specs, before.sections, all, i, n);
}

/// Every section stands in the prompt under its header, its lines below, in the order of the policy.
pub proof fn sections_stand_under_their_headers(
    sections: Seq<Option<SectionView>>,
    i: int,
)
    requires
        0 <= i < sections.len(),
        forall|j: int| 0 <= j < sections.len() ==> (#[trigger] sections[j]) is Some,
    ensures
        blocks(sections).len() == sections.len(),
        blocks(sections)[i] == "## "@ + sections[i]->0.kind.title() + "\n"@ + joined(
            sections[i]->0.lines,
            "\n"@,
        ),
    decreases sections.len(),
{
    let front = sections.drop_last();
    assert forall|j: int| 0 <= j < front.len() implies (#[trigger] front[j]) is Some by {
        assert(sections[j] is Some);
    }
    if front.len() > 0 {
        sections_stand_under_their_headers(front, if i < front.len() { i } else { 0 });
    } else {
        assert(blocks(front) =~= Seq::<Seq<char>>::empty());
    }
    assert(sections[sections.len() - 1] is Some);
}

/// The headers by which a prompt's sections are told apart.
pub proof fn headers_name_their_sections(kind: SectionKind)
    ensures
        kind is Goal <==> kind.title() == "Goal"@,
        kind is BoardDigest <==> kind.title() == "Board digest"@,
        kind is ClaimedTask <==> kind.title() == "Claimed task"@,
        kind is RecentActivity <==> kind.title() == "Recent activity"@,
        kind is KnowledgeRetrievals <==> kind.title() == "Knowledge retrievals"@,
        kind is FreshMessages <==> kind.title() == "Fresh messages"@,
        kind is Directives <==> kind.title() == "Directives"@,
        kind is DirectiveOutcomes <==> kind.title() == "Directive outcomes"@,
        kind is MetricsDigest <==> kind.title() == "Metrics digest"@,
        kind is RecentEvents <==> kind.title() == "Recent events"@,
{
    reveal_strlit("Goal");
    reveal_strlit("Board digest");
    reveal_strlit("Claimed task");
    reveal_strlit("Recent activity");
    reveal_strlit("Knowledge retrievals");
    reveal_strlit("Fresh messages");
    reveal_strlit("Directives");
    reveal_strlit("Directive outcomes");
    reveal_strlit("Metrics digest");
    reveal_strlit("Recent events");
    assert("Goal"@[0] == 'G' && "Board digest"@[0] == 'B' && "Claimed task"@[0] == 'C'
        && "Knowledge retrievals"@[0] == 'K' && "Fresh messages"@[0] == 'F'
        && "Metrics digest"@[0] == 'M' && "Recent activity"@[7] == 'a' && "Recent events"@[7]
        == 'e' && "Recent activity"@[0] == 'R' && "Recent events"@[0] == 'R' && "Directives"@[0]
        == 'D' && "Directive outcomes"@[0] == 'D' && "Directives"@.len() == 10
        && "Directive outcomes"@.len() == 18);
}

/// The sections of each role in their order, their budgets, and which of them sees the pool first.
pub proof fn roles_have_their_sections(role: Role, i: int)
    ensures
        ({
            let specs = role_sections(role);
            &&& specs.len() == match role {
                Role::Orchestrator => 5int,
                Role::TeamAgent => 6,
                Role::MetaAgent => 4,
            }
            &&& specs[0].kind is Goal && specs[0].priority == 0
            &&& role is Orchestrator ==> specs[1].kind is BoardDigest && specs[2].kind
                is KnowledgeRetrievals && specs[3].kind is FreshMessages && specs[4].kind
                is Directives && specs[0].priority < specs[4].priority < specs[1].priority
                < specs[3].priority < specs[2].priority
            &&& role is TeamAgent ==> specs[1].kind is BoardDigest && specs[2].kind is ClaimedTask
                && specs[3].kind is RecentActivity && specs[4].kind is KnowledgeRetrievals
                && specs[5].kind is FreshMessages && specs[0].priority < specs[2].priority
                < specs[3].priority < specs[1].priority < specs[5].priority < specs[4].priority
            &&& role is MetaAgent ==> specs[1].kind is MetricsDigest && specs[2].kind
                is DirectiveOutcomes && specs[3].kind is RecentEvents && specs[0].priority
                < specs[2].priority < specs[1].priority < specs[3].priority
            &&& 0 <= i < specs.len() ==> specs[i].budget == match specs[i].kind {
                SectionKind::Goal => 200int,
                SectionKind::ClaimedTask => 100,
                SectionKind::KnowledgeRetrievals => 600,
                SectionKind::BoardDigest => 800,
                SectionKind::FreshMessages => 800,
                SectionKind::MetricsDigest => 800,
                SectionKind::RecentActivity => 400,
                SectionKind::Directives => 400,
                SectionKind::DirectiveOutcomes => 400,
                SectionKind::RecentEvents => 400,
            }
        }),
{
}

/// A team agent's fixed text gives its specialty's name, then its description, then its focus; the other
/// roles' texts do not depend on any specialty.
pub proof fn fixed_texts_tell_the_specialty(p: ProfileView, q: Option<ProfileView>)
    ensures
        ({
            let text = skeleton_text(Role::TeamAgent, Some(p));
            let name = "You are a team agent. Specialty: "@.len() as int;
            let about = name + p.slug.len() + " — "@.len();
            let focus = about + p.description.len() + " Focus: "@.len();
            &&& text.len() > focus + p.focus.len()
            &&& text.subrange(name, name + p.slug.len()) == p.slug
            &&& text.subrange(about, about + p.description.len()) == p.description
            &&& text.subrange(focus, focus + p.focus.len()) == p.focus
            &&& text.take(name) == "You are a team agent. Specialty: "@
        }),
        skeleton_text(Role::Orchestrator, q) == skeleton_text(Role::Orchestrator, None),
        skeleton_text(Role::MetaAgent, q) == skeleton_text(Role::MetaAgent, None),
{
    reveal_strlit("You are a team agent. Specialty: ");
    reveal_strlit(" — ");
    reveal_strlit(" Focus: ");
    reveal_strlit(" Claim eligible work, do it over one or more turns, then complete_task.");
    let text = skeleton_text(Role::TeamAgent, Some(p));
    let name = "You are a team agent. Specialty: "@.len() as int;
    let about = name + p.slug.len() + " — "@.len();
    let focus = about + p.description.len() + " Focus: "@.len();
    assert(text.subrange(name, name + p.slug.len()) =~= p.slug);
    assert(text.subrange(about, about + p.description.len()) =~= p.description);
    assert(text.subrange(focus, focus + p.focus.len()) =~= p.focus);
    assert(text.take(name) =~= "You are a team agent. Specialty: "@);
}

/// The section lost items.
pub open spec fn lossy(section: Option<SectionView>) -> bool {
    section matches Some(s) && s.dropped > 0
}

/// Every section that lost items is recorded, by its name, with what it used and how many it lost, and
/// no other is.
pub proof fn losses_are_recorded<C: TokenCounter>(
    c: &C,
    specs: Seq<SectionSpec>,
    sections: Seq<Option<SectionView>>,
    i: int,
)
    requires
        0 <= i < sections.len(),
    ensures
        ({
            let records = degraded_in(c, specs, sections);
            &&& lossy(sections[i]) ==> exists|k: int|
                0 <= k < records.len() && {
                    &&& (#[trigger] records[k]).kind == sections[i]->0.kind.name()
                    &&& records[k].budget == budget_of(specs, sections[i]->0.kind)
                    &&& records[k].used == low32(cost(c, sections[i]->0.lines))
                    &&& records[k].dropped_items == low32(sections[i]->0.dropped)
                }
            &&& (forall|j: int| 0 <= j < sections.len() ==> !lossy(#[trigger] sections[j]))
                ==> records.len() == 0
        }),
    decreases sections.len(),
{
    let front = sections.drop_last();
    let records = degraded_in(c, specs, sections);
    let before = degraded_in(c, specs, front);
    let last = sections.len() - 1;
    if front.len() > 0 {
        losses_are_recorded(c, specs, front, if i < last { i } else { 0 });
    }
    if lossy(sections[i]) {
        if i < last {
            let k = choose|k: int|
                0 <= k < before.len() && {
                    &&& (#[trigger] before[k]).kind == front[i]->0.kind.name()
                    &&& before[k].budget == budget_of(specs, front[i]->0.kind)
                    &&& before[k].used == low32(cost(c, front[i]->0.lines))
                    &&& before[k].dropped_items == low32(front[i]->0.dropped)
                };
            assert(records[k] == before[k]);
        } else {
            assert(records[before.len() as int].kind == sections[i]->0.kind.name());
        }
    }
    if forall|j: int| 0 <= j < sections.len() ==> !lossy(#[trigger] sections[j]) {
        assert forall|j: int| 0 <= j < front.len() implies !lossy(#[trigger] front[j]) by {
            assert(!lossy(sections[j]));
        }
        assert(!lossy(sections[last]));
    }
}

/// A prompt delivers as many messages as its section of messages shows.
pub proof fn shown_messages_are_delivered(sections: Seq<Option<SectionView>>, i: int, n: nat)
    requires
        0 <= i < sections.len(),
        sections[i] matches Some(s) && s.drained == Some(n),
        forall|j: int|
            0 <= j < sections.len() && j != i ==> ((#[trigger] sections[j]) matches Some(s)
                ==> s.drained is None),
    ensures
        drained_in(sections) == n,
    decreases sections.len(),
{
    if i < sections.len() - 1 {
        let front = sections.drop_last();
        assert(sections[sections.len() - 1] matches Some(s) ==> s.drained is None);
        assert forall|j: int|
            0 <= j < front.len() && j != i implies ((#[trigger] front[j]) matches Some(s)
                ==> s.drained is None) by {
            assert(sections[j] == front[j]);
        }
        shown_messages_are_delivered(front, i, n);
    }
}

// ---------------------------------------------------------------------------
// What there is to show.
// ---------------------------------------------------------------------------

/// The line is on the list.
pub open spec fn listed(list: Seq<Seq<char>>, line: Seq<char>) -> bool {
    exists|k: int| 0 <= k < list.len() && #[trigger] list[k] == line
}

proof fn lemma_listed_push(list: Seq<Seq<char>>, more: Seq<char>, line: Seq<char>)
    ensures
        listed(list.push(more), line) <==> listed(list, line) || more == line,
{
    let after = list.push(more);
    if listed(list, line) {
        let k = choose|k: int| 0 <= k < list.len() && #[trigger] list[k] == line;
        assert(after[k] == line);
    }
    if more == line {
        assert(after[list.len() as int] == line);
    }
    if listed(after, line) {
        let k = choose|k: int| 0 <= k < after.len() && #[trigger] after[k] == line;
        if k < list.len() {
            assert(list[k] == line);
        }
    }
}

proof fn lemma_digest(b: BoardView, who: Option<AgentId>, n: int, line: Seq<char>)
    requires
        0 <= n <= b.tasks.len(),
    ensures
        listed(b.digest(who, n), line) <==> exists|k: int|
            0 <= k < n && b.shows(who, #[trigger] b.tasks[k]) && b.tasks[k].line() == line,
        who is None ==> b.digest(who, n).len() == n && (forall|k: int|
            0 <= k < n ==> #[trigger] b.digest(who, n)[k] == b.tasks[k].line()),
    decreases n,
{
    if n > 0 {
        lemma_digest(b, who, n - 1, line);
        lemma_listed_push(b.digest(who, n - 1), b.tasks[n - 1].line(), line);
        if listed(b.digest(who, n - 1), line) {
            let k = choose|k: int|
                0 <= k < n - 1 && b.shows(who, #[trigger] b.tasks[k]) && b.tasks[k].line() == line;
            assert(0 <= k < n && b.shows(who, b.tasks[k]));
        }
        if exists|k: int|
            0 <= k < n && b.shows(who, #[trigger] b.tasks[k]) && b.tasks[k].line() == line {
            let k = choose|k: int|
                0 <= k < n && b.shows(who, #[trigger] b.tasks[k]) && b.tasks[k].line() == line;
            if k < n - 1 {
                assert(b.shows(who, b.tasks[k]));
            }
        }
        if b.shows(who, b.tasks[n - 1]) {
            assert(b.shows(who, b.tasks[n - 1]) && b.tasks[n - 1].line() == b.tasks[n - 1].line());
        }
    }
}

/// The orchestrator is shown every task, one line each, in order, and the run's health. A team agent is
/// shown its own task and the open ones that it may claim, and no others. A meta-agent is shown no
/// tasks.
pub proof fn agents_are_shown_their_tasks(
    w: WorldView,
    agent: AgentId,
    hits: Seq<ScoredEntry>,
    k: int,
)
    requires
        w.wf(),
        0 <= k < w.board.tasks.len(),
    ensures
        ({
            let lead = scene(w, agent, Role::Orchestrator, hits);
            let mate = scene(w, agent, Role::TeamAgent, hits);
            let meta = scene(w, agent, Role::MetaAgent, hits);
            let task = w.board.tasks[k];
            let may = task.team matches Some(tag) ==> crate::effects::member(w.board, agent, tag);
            &&& lead.board_lines.len() == w.board.tasks.len()
            &&& lead.board_lines[k] == task.line()
            &&& lead.run_health == Some(w.metrics.health())
            &&& task.state == (StateView::Claimed { by: agent }) ==> listed(
                mate.board_lines,
                task.line(),
            ) && mate.claimed_line == Some(task.claim_line())
            &&& task.state is Open && may ==> listed(mate.board_lines, task.line())
            &&& mate.run_health is None
            &&& meta.board_lines.len() == 0 && meta.run_health is None
            &&& lead.claimed_line is None && meta.claimed_line is None
        }),
{
    let n = w.board.tasks.len() as int;
    let task = w.board.tasks[k];
    lemma_digest(w.board, None, n, task.line());
    lemma_digest(w.board, Some(agent), n, task.line());
    lemma_searches(w.board, task.id, agent, Seq::empty(), 0);
    if task.state == (StateView::Claimed { by: agent }) {
        let f = w.board.claim_of(agent)->0;
        assert(w.board.tasks[f].state == task.state);
        assert(w.board.shows(Some(agent), w.board.tasks[k]));
    }
    if task.state is Open {
        if let Some(tag) = task.team {
            lemma_searches(w.board, task.id, agent, tag, 0);
            if crate::effects::member(w.board, agent, tag) {
                let t = choose|t: int|
                    0 <= t < w.board.teams.len() && (#[trigger] w.board.teams[t]).id == tag
                        && w.board.teams[t].members.contains(agent);
                let f = w.board.team_of(tag)->0;
                assert(w.board.teams[f].id == w.board.teams[t].id);
                assert(w.board.shows(Some(agent), w.board.tasks[k]));
            }
        } else {
            assert(w.board.shows(Some(agent), w.board.tasks[k]));
        }
    }
}

/// Whatever task a team agent is shown is its own, or open and within its teams.
pub proof fn agents_are_shown_no_other_tasks(
    w: WorldView,
    agent: AgentId,
    hits: Seq<ScoredEntry>,
    line: Seq<char>,
)
    requires
        w.wf(),
        listed(scene(w, agent, Role::TeamAgent, hits).board_lines, line),
    ensures
        exists|k: int|
            0 <= k < w.board.tasks.len() && (#[trigger] w.board.tasks[k]).line() == line && (
            w.board.tasks[k].state == (StateView::Claimed { by: agent }) || (
            w.board.tasks[k].state is Open && (w.board.tasks[k].team matches Some(tag)
                ==> crate::effects::member(w.board, agent, tag)))),
{
    let n = w.board.tasks.len() as int;
    lemma_digest(w.board, Some(agent), n, line);
    let k = choose|k: int|
        0 <= k < n && w.board.shows(Some(agent), #[trigger] w.board.tasks[k])
            && w.board.tasks[k].line() == line;
    let task = w.board.tasks[k];
    if let Some(tag) = task.team {
        lemma_searches(w.board, task.id, agent, tag, 0);
        if task.state is Open {
            let f = w.board.team_of(tag)->0;
            assert(w.board.teams[f].id == tag && w.board.teams[f].members.contains(agent));
        }
    }
}

/// A prompt gives the goal; to the orchestrator and to team agents their queued messages, one line each,
/// oldest first, and the hits of the search for the goal and the title of the task at hand; to a team
/// agent what it did lately. A meta-agent gets no mail and no hits.
pub proof fn agents_are_shown_their_mail_and_hits(
    w: WorldView,
    agent: AgentId,
    role: Role,
    hits: Seq<ScoredEntry>,
    i: int,
)
    requires
        w.wf(),
        forall|k: int|
            0 <= k < mail_for(w.mail, agent).len() ==> 1 <= (#[trigger] mail_for(
                w.mail,
                agent,
            )[k]).0 <= w.messages.len(),
    ensures
        ({
            let s = scene(w, agent, role, hits);
            let mail = mail_for(w.mail, agent);
            &&& s.goal == w.goal
            &&& role is MetaAgent ==> s.queued_messages.len() == 0 && s.retrievals.len() == 0
            &&& !(role is MetaAgent) ==> {
                &&& s.queued_messages.len() == mail.len()
                &&& 0 <= i < mail.len() ==> s.queued_messages[i] == w.messages[mail[i].0
                    - 1].line()
                &&& w.store.len() > 0 ==> s.retrievals.len() == hits.len()
                &&& w.store.len() > 0 && 0 <= i < hits.len() ==> s.retrievals[i] == hits[i].line()
                &&& w.store.len() == 0 ==> s.retrievals.len() == 0
            }
            &&& role is TeamAgent && 0 <= i < w.team.len() && w.team[i].id == agent
                ==> s.window_lines == w.team[i].window
            &&& !(role is TeamAgent) ==> s.window_lines.len() == 0
        }),
{
    lemma_mail_lines(w.messages, mail_for(w.mail, agent), i);
    lemma_slot_at(w.team, agent, 0);
    if 0 <= i < w.team.len() && w.team[i].id == agent {
        let f = slot_at(w.team, agent, 0)->0;
        assert(w.team[f].id == w.team[i].id);
    }
}

proof fn lemma_mail_lines(messages: Seq<MessageView>, ids: Seq<MessageId>, i: int)
    requires
        forall|k: int| 0 <= k < ids.len() ==> 1 <= (#[trigger] ids[k]).0 <= messages.len(),
    ensures
        mail_lines(messages, ids).len() == ids.len(),
        0 <= i < ids.len() ==> mail_lines(messages, ids)[i] == messages[ids[i].0 - 1].line(),
    decreases ids.len(),
{
    if ids.len() > 0 {
        let front = ids.drop_last();
        assert forall|k: int| 0 <= k < front.len() implies 1 <= (#[trigger] front[k]).0
            <= messages.len() by {
            assert(ids[k] == front[k]);
        }
        lemma_mail_lines(messages, front, i);
        assert(ids[ids.len() - 1].0 >= 1);
    }
}

/// The search for a prompt is for the goal, and behind it the title of the task that the agent holds. A
/// meta-agent does not search, and nobody does while there is nothing to find.
pub proof fn prompts_search_for_the_goal_and_the_task(
    w: WorldView,
    agent: AgentId,
    role: Role,
    k: int,
)
    requires
        w.wf(),
    ensures
        query_of(w, agent, role) is Some <==> !(role is MetaAgent) && w.store.len() > 0,
        query_of(w, agent, role) is Some && crate::effects::free(w.board, agent) ==> query_of(
            w,
            agent,
            role,
        ) == Some(w.goal),
        query_of(w, agent, role) is Some && 0 <= k < w.board.tasks.len() && w.board.tasks[k].state
            == (StateView::Claimed { by: agent }) ==> query_of(w, agent, role) == Some(
            w.goal + seq![' '] + w.board.tasks[k].title,
        ),
{
    lemma_searches(w.board, TaskId(0), agent, Seq::empty(), 0);
    if 0 <= k < w.board.tasks.len() && w.board.tasks[k].state == (StateView::Claimed { by: agent }) {
        let f = w.board.claim_of(agent)->0;
        assert(w.board.tasks[f].state == w.board.tasks[k].state);
        assert(w.goal.push(' ') =~= w.goal + seq![' ']);
    }
}

proof fn lemma_pending(directives: Seq<DirectiveView>, line: Seq<char>)
    ensures
        listed(pending_lines(directives), line) <==> exists|d: int|
            0 <= d < directives.len() && (#[trigger] directives[d]).state is Pending
                && directives[d].line() == line,
    decreases directives.len(),
{
    if directives.len() > 0 {
        let front = directives.drop_last();
        let last = directives.len() - 1;
        lemma_pending(front, line);
        lemma_listed_push(pending_lines(front), directives.last().line(), line);
        if exists|d: int|
            0 <= d < front.len() && (#[trigger] front[d]).state is Pending && front[d].line()
                == line {
            let d = choose|d: int|
                0 <= d < front.len() && (#[trigger] front[d]).state is Pending && front[d].line()
                    == line;
            assert(directives[d].state is Pending);
        }
        if exists|d: int|
            0 <= d < directives.len() && (#[trigger] directives[d]).state is Pending
                && directives[d].line() == line {
            let d = choose|d: int|
                0 <= d < directives.len() && (#[trigger] directives[d]).state is Pending
                    && directives[d].line() == line;
            if d < last {
                assert(front[d].state is Pending);
            }
        }
        if directives.last().state is Pending {
            assert(directives[last].state is Pending);
        }
    }
}

proof fn lemma_outcomes(directives: Seq<DirectiveView>, from: AgentId, line: Seq<char>)
    ensures
        listed(outcome_lines(directives, from), line) <==> exists|d: int|
            0 <= d < directives.len() && (#[trigger] directives[d]).from == from
                && directives[d].report() == line,
    decreases directives.len(),
{
    if directives.len() > 0 {
        let front = directives.drop_last();
        let last = directives.len() - 1;
        lemma_outcomes(front, from, line);
        lemma_listed_push(outcome_lines(front, from), directives.last().report(), line);
        if exists|d: int|
            0 <= d < front.len() && (#[trigger] front[d]).from == from && front[d].report()
                == line {
            let d = choose|d: int|
                0 <= d < front.len() && (#[trigger] front[d]).from == from && front[d].report()
                    == line;
            assert(directives[d].from == from);
        }
        if exists|d: int|
            0 <= d < directives.len() && (#[trigger] directives[d]).from == from
                && directives[d].report() == line {
            let d = choose|d: int|
                0 <= d < directives.len() && (#[trigger] directives[d]).from == from
                    && directives[d].report() == line;
            if d < last {
                assert(front[d].from == from);
            }
        }
        if directives.last().from == from {
            assert(directives[last].from == from);
        }
    }
}

/// The orchestrator is shown every pending directive and no other; a meta-agent what became of each of
/// its own directives, and of no other's.
pub proof fn agents_are_shown_their_directives(
    w: WorldView,
    agent: AgentId,
    role: Role,
    hits: Seq<ScoredEntry>,
    line: Seq<char>,
)
    ensures
        ({
            let s = scene(w, agent, role, hits);
            &&& listed(s.directive_lines, line) <==> role is Orchestrator && exists|d: int|
                0 <= d < w.directives.len() && (#[trigger] w.directives[d]).state is Pending
                    && w.directives[d].line() == line
            &&& listed(s.outcome_lines, line) <==> role is MetaAgent && exists|d: int|
                0 <= d < w.directives.len() && (#[trigger] w.directives[d]).from == agent
                    && w.directives[d].report() == line
        }),
{
    lemma_pending(w.directives, line);
    lemma_outcomes(w.directives, agent, line);
}

/// A meta-agent is shown the metrics and the last twenty events, one line each, in order; the others are
/// not.
pub proof fn meta_agents_are_shown_the_run(
    w: WorldView,
    agent: AgentId,
    role: Role,
    hits: Seq<ScoredEntry>,
    i: int,
)
    ensures
        ({
            let s = scene(w, agent, role, hits);
            let n = w.events.len();
            let shown = s.recent_event_lines.len();
            &&& role is MetaAgent ==> {
                &&& s.metrics_digest == Some(w.metrics.digest_text())
                &&& n <= 20 ==> shown == n
                &&& n > 20 ==> shown == 20
                &&& 0 <= i < shown ==> s.recent_event_lines[i] == w.events[n - shown + i].line()
            }
            &&& !(role is MetaAgent) ==> s.metrics_digest is None && shown == 0
        }),
{
}

} // verus!
