//! What the metrics and the report say, told from the log and as numbers that can be read off.
use crate::agent::AgentId;
use crate::event::{EventSource, EventView, KindView, RestoredState};
use crate::fixed::{as_double, half_even, lift, lower, scaled, spacing, LOW, SIG};
use crate::ids::{MessageId, TaskId};
use crate::metrics::{
    age, ascending, change_lines, change_texts, deepest, fold_log, is_ascending, lemma_meter_at,
    median, meter_at, oldest_in, oldest_pending, parallelism_chain, queue_all, reason_text,
    seconds_text, slug_texts, sorts, token_lines, tokens_text, undelivered, waiting_for, MeterState,
    MetricsView, RunSummary, Waiting,
};
use crate::table::{read_back, row};
use crate::text::{dec, joined};
use vstd::prelude::*;

verus! {

// ---------------------------------------------------------------------------
// Rounding.
// ---------------------------------------------------------------------------

proof fn lemma_half_even(a: nat, b: nat)
    requires
        b > 0,
    ensures
        2 * (half_even(a, b) * b) <= 2 * a + b,
        2 * a <= 2 * (half_even(a, b) * b) + b,
{
    let q = a / b;
    let r = a % b;
    assert(a == q * b + r && r < b) by (nonlinear_arith)
        requires
            b > 0,
            q == a / b,
            r == a % b,
    ;
    assert((q + 1) * b == q * b + b) by (nonlinear_arith);
    assert(q % 2 == 0 || q % 2 == 1);
}

proof fn lemma_lift(num: nat)
    requires
        num > 0,
    ensures
        lift(num) >= 1,
        num * lift(num) >= LOW,
    decreases
            (if num < LOW {
                LOW - num
            } else {
                0
            }),
{
    if num < LOW {
        lemma_lift(2 * num);
        assert(num * (2 * lift(2 * num)) == (2 * num) * lift(2 * num)) by (nonlinear_arith);
    } else {
        let up = lift(num);
        assert(num * up == num) by (nonlinear_arith)
            requires
                up == 1,
        ;
    }
}

proof fn lemma_exact(n: nat)
    requires
        n < 2 * SIG,
    ensures
        as_double(n) == n,
        lower(n) == 1,
{
    let unit = spacing(n);
    assert(unit == 1);
    assert(half_even(n, 1) == n);
    assert(half_even(n, unit) * unit == n) by (nonlinear_arith)
        requires
            unit == 1,
            half_even(n, unit) == n,
    ;
}

proof fn lemma_zero(b: nat)
    requires
        b > 0,
    ensures
        half_even(0, b) == 0,
{
    lemma_half_even(0, b);
    let h = half_even(0, b);
    assert(h == 0) by (nonlinear_arith)
        requires
            2 * (h * b) <= b,
            b > 0,
            h >= 0,
    ;
}

proof fn lemma_large_lift(num: nat)
    requires
        0 < num < 2 * SIG,
    ensures
        lift(num) > 500,
{
    lemma_lift(num);
    let up = lift(num);
    assert(up > 500) by (nonlinear_arith)
        requires
            num * up >= LOW,
            LOW == SIG * 1000,
            num < 2 * SIG,
            num > 0,
    ;
}

/// A number of thousandths is rounded to the nearest hundredth: the one shown is at most half a
/// hundredth away. Beyond two to the power of 53 thousandths a double cannot tell them apart.
pub proof fn hundredths_are_the_nearest(n: nat)
    requires
        n < 2 * SIG,
    ensures
        10 * scaled(n, 100) <= n + 5,
        n <= 10 * scaled(n, 100) + 5,
{
    let t = scaled(n, 100);
    lemma_exact(n);
    let up = lift(n);
    let s = half_even(n * up, 1000 * 1);
    if n == 0 {
        lemma_zero(1000);
        lemma_zero(1);
    } else {
        lemma_large_lift(n);
        lemma_half_even(n * up, 1000);
        assert(s * 1 * 100 == 100 * s);
        lemma_half_even((100 * s) as nat, up);
        assert(10 * t < n + 6 && n < 10 * t + 6) by (nonlinear_arith)
            requires
                2 * (s * 1000) <= 2 * (n * up) + 1000,
                2 * (n * up) <= 2 * (s * 1000) + 1000,
                2 * (t * up) <= 2 * (100 * s) + up,
                2 * (100 * s) <= 2 * (t * up) + up,
                up > 500,
        ;
    }
}

/// A number of units is rounded to the nearest tenth of a thousand, in the same way.
pub proof fn tenths_are_the_nearest(n: nat)
    requires
        n < 2 * SIG,
    ensures
        100 * scaled(n, 10) <= n + 50,
        n <= 100 * scaled(n, 10) + 50,
{
    let t = scaled(n, 10);
    lemma_exact(n);
    let up = lift(n);
    let s = half_even(n * up, 1000 * 1);
    if n == 0 {
        lemma_zero(1000);
        lemma_zero(1);
    } else {
        lemma_large_lift(n);
        lemma_half_even(n * up, 1000);
        assert(s * 1 * 10 == 10 * s);
        lemma_half_even((10 * s) as nat, up);
        assert(100 * t < n + 51 && n < 100 * t + 51) by (nonlinear_arith)
            requires
                2 * (s * 1000) <= 2 * (n * up) + 1000,
                2 * (n * up) <= 2 * (s * 1000) + 1000,
                2 * (t * up) <= 2 * (10 * s) + up,
                2 * (10 * s) <= 2 * (t * up) + up,
                up > 500,
        ;
    }
}

/// A duration shows as its seconds and hundredths: whole hundredths exactly, and anything else as the
/// nearest hundredth, with two places. A negative one shows as the positive one behind a minus.
pub proof fn durations_read_as_seconds(ms: int, s: nat, h: nat)
    requires
        -2 * SIG < ms < 2 * SIG,
        1000 * s + 10 * h < 2 * SIG,
        h < 100,
    ensures
        seconds_text((1000 * s + 10 * h) as int) == dec(s) + "."@ + dec(h / 10) + dec(h % 10),
        ms >= 0 ==> exists|t: nat|
            seconds_text(ms) == #[trigger] dec(t / 100) + "."@ + dec((t / 10) % 10) + dec(t % 10)
                && -5 <= 10 * t - ms <= 5,
        ms < 0 ==> seconds_text(ms) == "-"@ + seconds_text(-ms),
{
    reveal_strlit("");
    let n = (1000 * s + 10 * h) as nat;
    hundredths_are_the_nearest(n);
    let t = scaled(n, 100);
    assert(t == 100 * s + h);
    assert(t / 100 == s && (t / 10) % 10 == h / 10 && t % 10 == h % 10);
    let shown = dec(s) + "."@ + dec(h / 10) + dec(h % 10);
    assert(""@ + shown =~= shown);
    if ms >= 0 {
        hundredths_are_the_nearest(ms as nat);
        let u = scaled(ms as nat, 100);
        let text = dec(u / 100) + "."@ + dec((u / 10) % 10) + dec(u % 10);
        assert(""@ + text =~= text);
        assert(seconds_text(ms) == dec(u / 100) + "."@ + dec((u / 10) % 10) + dec(u % 10) && -5
            <= 10 * u - ms <= 5);
    } else {
        let u = scaled((-ms) as nat, 100);
        let text = dec(u / 100) + "."@ + dec((u / 10) % 10) + dec(u % 10);
        assert(""@ + text =~= text);
    }
}

/// Token counts show as they are below a thousand, and above as thousands with one place, the nearest.
pub proof fn token_counts_read_as_thousands(n: nat)
    requires
        n < 2 * SIG,
    ensures
        n < 1000 ==> tokens_text(n) == dec(n),
        n >= 1000 ==> exists|t: nat|
            tokens_text(n) == #[trigger] dec(t / 10) + "."@ + dec(t % 10) + "k"@ && -50 <= 100 * t
                - n <= 50,
{
    if n >= 1000 {
        tenths_are_the_nearest(n);
        let t = scaled(n, 10);
        assert(tokens_text(n) == dec(t / 10) + "."@ + dec(t % 10) + "k"@ && -50 <= 100 * t - n
            <= 50);
    }
}

// ---------------------------------------------------------------------------
// The log.
// ---------------------------------------------------------------------------

/// The wall time of a run is the time from its first event to its last.
pub proof fn runs_last_from_first_to_last(log: Seq<EventView>)
    requires
        log.len() > 0,
    ensures
        fold_log(log).first_at == Some(log[0].at),
        fold_log(log).last_at == Some(log.last().at),
        fold_log(log).last_event_id == Some(log.last().id),
        i64::MIN <= log.last().at.millis - log[0].at.millis <= i64::MAX ==> fold_log(log).wall()
            == log.last().at.millis - log[0].at.millis,
    decreases log.len(),
{
    let front = log.drop_last();
    if front.len() > 0 {
        runs_last_from_first_to_last(front);
    } else {
        assert(fold_log(front) == MetricsView::empty());
    }
    let m = fold_log(front).seen(log.last());
    lemma_first_kept(m, log.last());
    lemma_last_kept(m, log.last());
    lemma_place_kept(m, log.last());
}

#[verifier::rlimit(60)]
proof fn lemma_first_kept(m: MetricsView, e: EventView)
    ensures
        m.folded(e).first_at == m.first_at,
{
    reveal(MetricsView::folded);
    match e.kind {
        KindView::TurnCompleted { .. } => {},
        KindView::MessageSent { .. } => {},
        KindView::AgentRespecialized { .. } => {},
        _ => {},
    }
}

#[verifier::rlimit(60)]
proof fn lemma_last_kept(m: MetricsView, e: EventView)
    ensures
        m.folded(e).last_at == m.last_at,
{
    reveal(MetricsView::folded);
    match e.kind {
        KindView::TurnCompleted { .. } => {},
        KindView::MessageSent { .. } => {},
        KindView::AgentRespecialized { .. } => {},
        _ => {},
    }
}

#[verifier::rlimit(60)]
proof fn lemma_place_kept(m: MetricsView, e: EventView)
    ensures
        m.folded(e).last_event_id == m.last_event_id,
{
    reveal(MetricsView::folded);
    match e.kind {
        KindView::TurnCompleted { .. } => {},
        KindView::MessageSent { .. } => {},
        KindView::AgentRespecialized { .. } => {},
        _ => {},
    }
}

/// The tokens that an agent's turns report in a log.
pub open spec fn spent_by(log: Seq<EventView>, agent: AgentId) -> nat
    decreases log.len(),
{
    if log.len() == 0 {
        0
    } else {
        spent_by(log.drop_last(), agent) + match (log.last().kind, log.last().source) {
            (KindView::TurnCompleted { usage, .. }, EventSource::Agent(a)) => if a == agent {
                usage.total as nat
            } else {
                0
            },
            _ => 0,
        }
    }
}

/// An agent's tokens are those of its own turns, all of them.
pub proof fn agents_pay_for_their_turns(log: Seq<EventView>, agent: AgentId)
    requires
        spent_by(log, agent) <= u64::MAX,
    ensures
        fold_log(log).tokens_of(agent) == spent_by(log, agent),
    decreases log.len(),
{
    if log.len() > 0 {
        let front = log.drop_last();
        agents_pay_for_their_turns(front, agent);
        let m = fold_log(front).seen(log.last());
        let e = log.last();
        lemma_usage(m, e, agent);
    }
}

proof fn lemma_usage(m: MetricsView, e: EventView, agent: AgentId)
    requires
        m.tokens_of(agent) + (match (e.kind, e.source) {
            (KindView::TurnCompleted { usage, .. }, EventSource::Agent(a)) => if a == agent {
                usage.total as nat
            } else {
                0
            },
            _ => 0,
        }) <= u64::MAX,
    ensures
        m.folded(e).tokens_of(agent) == m.tokens_of(agent) + (match (e.kind, e.source) {
            (KindView::TurnCompleted { usage, .. }, EventSource::Agent(a)) => if a == agent {
                usage.total as nat
            } else {
                0
            },
            _ => 0,
        }),
{
    reveal(MetricsView::folded);
    if let KindView::TurnCompleted { usage, .. } = e.kind {
        if let EventSource::Agent(a) = e.source {
            let n = match row(m.tokens_per_agent, a) {
                Some(n) => (n + usage.total) as u64,
                None => usage.total,
            };
            read_back(m.tokens_per_agent, a, n, agent);
        }
    }
}

/// What an event says a team agent does from then on, if it says anything.
pub open spec fn put_in(e: EventView, agent: AgentId) -> Option<MeterState> {
    let acts = e.source == EventSource::Agent(agent);
    match e.kind {
        KindView::TaskClaimed { task, .. } => if acts {
            Some(MeterState::Working(task))
        } else {
            None
        },
        KindView::TaskReleased { .. } => if acts {
            Some(MeterState::Idle)
        } else {
            None
        },
        KindView::TaskCompleted { .. } => if acts {
            Some(MeterState::Idle)
        } else {
            None
        },
        KindView::TaskUnassigned { prev_claimant, .. } => if prev_claimant == agent {
            Some(MeterState::Idle)
        } else {
            None
        },
        KindView::AgentSlept { agent: a, .. } => if a == agent {
            Some(MeterState::Asleep)
        } else {
            None
        },
        KindView::AgentParked { agent: a, .. } => if a == agent {
            Some(MeterState::Asleep)
        } else {
            None
        },
        KindView::AgentWoke { agent: a, restored, .. } => if a == agent {
            Some(
                match restored {
                    RestoredState::Working { task } => MeterState::Working(task),
                    RestoredState::Idle => MeterState::Idle,
                },
            )
        } else {
            None
        },
        _ => None,
    }
}

/// The meters follow the log: a team agent does what the last event about it says, keeps its specialty
/// until it gets another, and its malformed turns are counted until a turn with calls goes well. Its
/// idle streak starts anew when it becomes idle, and when an idle agent ends a turn or changes its
/// specialty.
#[verifier::rlimit(40)]
pub proof fn meters_follow_the_log(m: MetricsView, e: EventView, i: int)
    requires
        0 <= i < m.team_agents.len(),
        forall|a: int, b: int|
            0 <= a < m.team_agents.len() && 0 <= b < m.team_agents.len() && (
            #[trigger] m.team_agents[a]).id == (#[trigger] m.team_agents[b]).id ==> a == b,
        m.team_agents[i].malformed < u32::MAX,
        !(e.kind is RunStarted),
    ensures
        ({
            let was = m.team_agents[i];
            let now = m.fold(e).team_agents[i];
            let acts = e.source == EventSource::Agent(was.id);
            &&& m.fold(e).team_agents.len() == m.team_agents.len()
            &&& now.id == was.id
            &&& now.state == match put_in(e, was.id) {
                Some(state) => state,
                None => was.state,
            }
            &&& now.specialty == match e.kind {
                KindView::AgentRespecialized { agent, to, .. } => if agent == was.id {
                    to
                } else {
                    was.specialty
                },
                _ => was.specialty,
            }
            &&& now.malformed == match e.kind {
                KindView::TurnCompleted { malformed, tool_iters, .. } => if acts && malformed {
                    was.malformed + 1
                } else if acts && tool_iters > 0 {
                    0
                } else {
                    was.malformed as int
                },
                _ => was.malformed as int,
            }
            &&& now.idle_since == (if (put_in(e, was.id) is Some && now.state is Idle) || (was.state
                is Idle && ((e.kind is TurnCompleted && acts) || (
            e.kind matches KindView::AgentRespecialized { agent, .. } && agent == was.id))) {
                e.id
            } else {
                was.idle_since
            })
        }),
{
    reveal(MetricsView::folded);
    let v = m.seen(e);
    let id = m.team_agents[i].id;
    assert forall|a: AgentId|
        (meter_at(v.team_agents, a, 0) == Some(i) <==> a == id) && (#[trigger] meter_at(
            v.team_agents,
            a,
            0,
        ) matches Some(k) ==> 0 <= k < v.team_agents.len()) by {
        lemma_meter_at(v.team_agents, a, 0);
        lemma_meter_at(v.team_agents, id, 0);
        if meter_at(v.team_agents, id, 0) is Some {
            let k = meter_at(v.team_agents, id, 0)->0;
            assert(v.team_agents[k].id == v.team_agents[i].id);
        }
    }
}

/// At the start all team agents are idle generalists, numbered from one.
pub proof fn crews_start_idle(m: MetricsView, e: EventView, i: int)
    requires
        e.kind matches KindView::RunStarted { agents, .. } && 0 <= i < agents,
    ensures
        e.kind matches KindView::RunStarted { agents, meta_agents, parallel, .. } && {
            let n = m.fold(e);
            &&& n.team_agents.len() == agents
            &&& n.team_agents[i].id == AgentId::Team((i + 1) as u64)
            &&& n.team_agents[i].state is Idle
            &&& n.team_agents[i].specialty == "generalist"@
            &&& n.team_agents[i].malformed == 0
            &&& n.team_agents[i].idle_since == e.id
            &&& n.team_agent_count == agents
            &&& n.meta_agent_count == meta_agents
            &&& n.initial_parallelism == parallel
            &&& n.specialties_used.contains("generalist"@)
        },
{
    reveal(MetricsView::folded);
    let n = m.fold(e);
    if m.specialties_used.contains("generalist"@) {
    } else {
        assert(n.specialties_used[m.specialties_used.len() as int] == "generalist"@);
    }
}

/// Changes of specialty and of parallelism are kept in order, as they were logged; a specialty that came
/// up is counted as used, once.
pub proof fn changes_are_kept_in_order(m: MetricsView, e: EventView, slug: Seq<char>)
    requires
        !(e.kind is RunStarted),
    ensures
        ({
            let n = m.fold(e);
            &&& n.respecializations == match e.kind {
                KindView::AgentRespecialized { agent, from, to, .. } => m.respecializations.push(
                    (agent, from, to),
                ),
                _ => m.respecializations,
            }
            &&& n.parallelism_changes == match e.kind {
                KindView::ParallelismChanged { effective, .. } => m.parallelism_changes.push(
                    effective,
                ),
                _ => m.parallelism_changes,
            }
            &&& n.specialties_used.contains(slug) <==> m.specialties_used.contains(slug) || (
            e.kind matches KindView::AgentRespecialized { to, .. } && to == slug)
            &&& n.specialties_used.len() <= m.specialties_used.len() + 1
            &&& (e.kind matches KindView::AgentRespecialized { to, .. }
                && m.specialties_used.contains(to)) ==> n.specialties_used == m.specialties_used
            &&& n.initial_parallelism == m.initial_parallelism
            &&& n.team_agent_count == m.team_agent_count
            &&& n.meta_agent_count == m.meta_agent_count
        }),
{
    reveal(MetricsView::folded);
    let n = m.fold(e);
    if n.specialties_used != m.specialties_used {
        let to = e.kind->to;
        assert(n.specialties_used == m.specialties_used.push(to));
        assert(n.specialties_used[m.specialties_used.len() as int] == to);
        if m.specialties_used.contains(slug) {
            let i = choose|i: int|
                0 <= i < m.specialties_used.len() && m.specialties_used[i] == slug;
            assert(n.specialties_used[i] == slug);
        }
        if n.specialties_used.contains(slug) && slug != to {
            let i = choose|i: int|
                0 <= i < n.specialties_used.len() && n.specialties_used[i] == slug;
            assert(m.specialties_used[i] == slug);
        }
    }
}

/// A completed task was worked on from its claim to its completion, in event numbers.
pub proof fn latencies_run_from_claim_to_completion(
    m: MetricsView,
    claim: EventView,
    done: EventView,
    task: TaskId,
)
    requires
        claim.kind matches KindView::TaskClaimed { task: t, .. } && t == task,
        done.kind matches KindView::TaskCompleted { task: t, .. } && t == task,
        claim.id.0 <= done.id.0,
    ensures
        m.fold(claim).fold(done).work_latencies == m.work_latencies.push(
            (done.id.0 - claim.id.0) as u64,
        ),
        m.fold(claim).work_latencies == m.work_latencies,
{
    reveal(MetricsView::folded);
    read_back(m.claimed_at, task, claim.id, task);
}

/// The median of the latencies is the middle one of them in ascending order, or the mean of the two
/// middle ones, rounded down.
pub proof fn medians_stand_in_the_middle(s: Seq<u64>)
    ensures
        median(s) is None <==> s.len() == 0,
        s.len() > 0 ==> exists|t: Seq<u64>|
            {
                &&& #[trigger] is_ascending(t)
                &&& t.to_multiset() == s.to_multiset()
                &&& t.len() == s.len()
                &&& s.len() % 2 == 1 ==> median(s) == Some(t[(s.len() - 1) as int / 2])
                &&& s.len() % 2 == 0 ==> (median(s) matches Some(m) && {
                    let sum = t[s.len() as int / 2 - 1] + t[s.len() as int / 2];
                    2 * m <= sum <= 2 * m + 1
                })
            },
{
    sorts(s);
    if s.len() > 0 {
        let t = ascending(s);
        assert(is_ascending(t));
        assert(t.to_multiset() == s.to_multiset());
    }
}

// ---------------------------------------------------------------------------
// Mail.
// ---------------------------------------------------------------------------

/// The depth shown is that of the longest queue.
pub proof fn depth_is_the_longest_queue(pending: Seq<(AgentId, Seq<Waiting>)>, i: int)
    ensures
        0 <= i < pending.len() ==> pending[i].1.len() <= deepest(pending),
        pending.len() == 0 ==> deepest(pending) == 0,
        pending.len() > 0 ==> exists|k: int|
            0 <= k < pending.len() && (#[trigger] pending[k]).1.len() == deepest(pending),
    decreases pending.len(),
{
    if pending.len() > 0 {
        let front = pending.drop_last();
        depth_is_the_longest_queue(front, i);
        if pending.last().1.len() > deepest(front) || front.len() == 0 {
            assert(pending[pending.len() - 1].1.len() == deepest(pending));
        } else {
            let k = choose|k: int|
                0 <= k < front.len() && (#[trigger] front[k]).1.len() == deepest(front);
            assert(pending[k].1.len() == deepest(pending));
        }
    }
}

proof fn lemma_oldest_in(queue: Seq<Waiting>, now: u64, i: int)
    ensures
        0 <= i < queue.len() ==> age(now, queue[i].1) <= oldest_in(queue, now),
        oldest_in(queue, now) > 0 ==> exists|k: int|
            0 <= k < queue.len() && age(now, (#[trigger] queue[k]).1) == oldest_in(queue, now),
    decreases queue.len(),
{
    if queue.len() > 0 {
        let front = queue.drop_last();
        lemma_oldest_in(front, now, i);
        if age(now, queue.last().1) > oldest_in(front, now) {
            assert(age(now, queue[queue.len() - 1].1) == oldest_in(queue, now));
        } else if oldest_in(front, now) > 0 {
            let k = choose|k: int|
                0 <= k < front.len() && age(now, (#[trigger] front[k]).1) == oldest_in(front, now);
            assert(age(now, queue[k].1) == oldest_in(queue, now));
        }
    }
}

/// The age shown is that of the message that has waited longest, in event numbers.
pub proof fn age_is_the_longest_wait(
    pending: Seq<(AgentId, Seq<Waiting>)>,
    now: u64,
    i: int,
    j: int,
)
    ensures
        0 <= i < pending.len() && 0 <= j < pending[i].1.len() && pending[i].1[j].1.0 <= now ==> now
            - pending[i].1[j].1.0 <= oldest_pending(pending, now),
        oldest_pending(pending, now) > 0 ==> exists|a: int, b: int|
            0 <= a < pending.len() && 0 <= b < pending[a].1.len() && now - (
            #[trigger] pending[a].1[b]).1.0 == oldest_pending(pending, now),
    decreases pending.len(),
{
    if pending.len() > 0 {
        let front = pending.drop_last();
        age_is_the_longest_wait(front, now, i, j);
        let last = pending.len() - 1;
        lemma_oldest_in(pending.last().1, now, j);
        if oldest_in(pending.last().1, now) > oldest_pending(front, now) {
            let queue = pending.last().1;
            let k = choose|k: int|
                0 <= k < queue.len() && age(now, (#[trigger] queue[k]).1) == oldest_in(queue, now);
            assert(now - pending[last].1[k].1.0 == oldest_pending(pending, now));
        } else if oldest_pending(front, now) > 0 {
            let (a, b) = choose|a: int, b: int|
                0 <= a < front.len() && 0 <= b < front[a].1.len() && now - (
                #[trigger] front[a].1[b]).1.0 == oldest_pending(front, now);
            assert(now - pending[a].1[b].1.0 == oldest_pending(pending, now));
        }
    }
}

/// What is delivered no longer waits, and everything else does, in its order.
pub proof fn delivered_messages_no_longer_wait(
    queue: Seq<Waiting>,
    delivered: Seq<MessageId>,
    item: Waiting,
)
    ensures
        undelivered(queue, delivered).contains(item) <==> queue.contains(item)
            && !delivered.contains(item.0),
        undelivered(queue, delivered).len() <= queue.len(),
    decreases queue.len(),
{
    if queue.len() > 0 {
        let front = queue.drop_last();
        delivered_messages_no_longer_wait(front, delivered, item);
        let was = undelivered(front, delivered);
        let now = undelivered(queue, delivered);
        if queue.contains(item) {
            let i = choose|i: int| 0 <= i < queue.len() && queue[i] == item;
            if i < front.len() {
                assert(front[i] == item);
            }
        }
        if front.contains(item) {
            let i = choose|i: int| 0 <= i < front.len() && front[i] == item;
            assert(queue[i] == item);
        }
        if was.contains(item) {
            let i = choose|i: int| 0 <= i < was.len() && was[i] == item;
            assert(now[i] == item);
        }
        if now.contains(item) {
            let i = choose|i: int| 0 <= i < now.len() && now[i] == item;
            if i < was.len() {
                assert(was[i] == item);
            } else {
                assert(queue[queue.len() - 1] == item);
            }
        }
        if queue.last() == item && !delivered.contains(item.0) {
            assert(now[was.len() as int] == item);
        }
    } else {
        assert(undelivered(queue, delivered) =~= Seq::<Waiting>::empty());
        assert(!queue.contains(item)) by {
            if queue.contains(item) {
                let i = choose|i: int| 0 <= i < queue.len() && queue[i] == item;
            }
        }
    }
}

/// A message waits last in the queue of each of its readers.
pub proof fn sent_messages_wait_last(
    pending: Seq<(AgentId, Seq<Waiting>)>,
    recipients: Seq<AgentId>,
    item: Waiting,
    agent: AgentId,
)
    ensures
        waiting_for(queue_all(pending, recipients, item), agent) == waiting_for(pending, agent)
            + Seq::new(crate::effects::times(recipients, agent), |i: int| item),
    decreases recipients.len(),
{
    let after = waiting_for(queue_all(pending, recipients, item), agent);
    if recipients.len() > 0 {
        let front = recipients.drop_last();
        sent_messages_wait_last(pending, front, item, agent);
        let before = queue_all(pending, front, item);
        let who = recipients.last();
        read_back(before, who, waiting_for(before, who).push(item), agent);
    }
    assert(after =~= waiting_for(pending, agent) + Seq::new(
        crate::effects::times(recipients, agent),
        |i: int| item,
    ));
}

// ---------------------------------------------------------------------------
// The report.
// ---------------------------------------------------------------------------

/// The lines of the summary come in this order and show these numbers.
pub proof fn summaries_show_the_counts(s: RunSummary)
    ensures
        ({
            let l = s.lines();
            let c = s.counts;
            &&& l.len() >= 11
            &&& l[0] == "## Run summary"@
            &&& l[1] == "- Outcome: "@ + s.outcome_text()
            &&& l[2] == "- Duration: "@ + seconds_text(s.wall_ms as int) + "s wall · "@ + dec(
                c.ticks as nat,
            ) + " ticks"@
            &&& l[3] == "- Agents: "@ + dec(s.team_agents as nat) + " team + "@ + dec(
                s.meta_agents as nat,
            ) + " meta · specialties used: "@ + joined(slug_texts(s.specialties_used@), ", "@)
            &&& l[4] == "- Tasks: created "@ + dec(c.tasks_created as nat) + " · completed "@ + dec(
                c.tasks_completed as nat,
            ) + " · cancelled "@ + dec(c.tasks_cancelled as nat)
            &&& l[5] == "- Messages: "@ + dec(c.messages_total as nat) + " (direct "@ + dec(
                c.messages_direct as nat,
            ) + ", team "@ + dec(c.messages_team as nat) + ", broadcast "@ + dec(
                c.messages_broadcast as nat,
            ) + ")"@
            &&& l[6] == "- Knowledge: "@ + dec(s.knowledge_entries as nat)
                + " entries (Message "@ + dec(c.knowledge_messages as nat) + ", Note "@ + dec(
                c.knowledge_notes as nat,
            ) + ", TaskCompletion "@ + dec(c.knowledge_completions as nat) + ") · "@ + dec(
                c.knowledge_bytes as nat,
            ) + " bytes"@
            &&& l[7] == "- Sleeps "@ + dec(c.sleeps as nat) + " · Wakes "@ + dec(c.wakes as nat)
                + " · Parks "@ + dec(c.parks as nat)
            &&& s.respecializations@.len() == 0 ==> l[8] == "- Respecializations: 0"@
            &&& s.respecializations@.len() > 0 ==> l[8] == "- Respecializations: "@ + dec(
                s.respecializations@.len(),
            ) + " ("@ + joined(change_lines(change_texts(s.respecializations@)), ", "@) + ")"@
            &&& l[9] == "- Effective parallelism: "@ + parallelism_chain(
                s.initial_parallelism,
                s.parallelism_changes@,
            ) + (if s.parallelism_changes@.len() > 0 {
                " (meta set_parallelism)"@
            } else {
                Seq::empty()
            })
            &&& l[10] == "- Tokens: "@ + tokens_text(c.tokens_total as nat) + " total — "@ + joined(
                token_lines(s.tokens_per_agent@),
                ", "@,
            )
            &&& s.meta_agents > 0 ==> l.len() > 11 && l[11] == "- Meta interventions: issued "@
                + dec(c.directives_issued as nat) + " · fulfilled "@ + dec(
                c.directives_fulfilled as nat,
            ) + " · declined "@ + dec(c.directives_declined as nat)
        }),
{
    let chain = "- Effective parallelism: "@ + parallelism_chain(
        s.initial_parallelism,
        s.parallelism_changes@,
    );
    assert(chain + Seq::<char>::empty() =~= chain);
}

/// The outcome names how the run ended and its exit code.
pub proof fn outcomes_name_the_end(s: RunSummary)
    ensures
        s.outcome is None ==> s.outcome_text() == "unknown (run not finished)"@,
        s.outcome matches Some((reason, code)) ==> s.outcome_text() == reason_text(reason)
            + " (exit "@ + dec(code as nat) + ")"@,
        reason_text(crate::event::RunFinishReason::CleanFinish) == "CleanFinish"@,
        reason_text(crate::event::RunFinishReason::HarnessError) == "HarnessError"@,
{
}

/// Every change of specialty has its part in the report: who, from what, to what, in order; so has every
/// change of parallelism, behind the first one; and every agent its tokens.
pub proof fn reports_list_every_change(
    changes: Seq<(AgentId, Seq<char>, Seq<char>)>,
    initial: u32,
    levels: Seq<u32>,
    next: u32,
    tokens: Seq<(AgentId, u64)>,
    i: int,
)
    ensures
        change_lines(changes).len() == changes.len(),
        0 <= i < changes.len() ==> change_lines(changes)[i] == changes[i].0.handle() + ": "@
            + changes[i].1 + " → "@ + changes[i].2,
        parallelism_chain(initial, Seq::empty()) == dec(initial as nat),
        parallelism_chain(initial, levels.push(next)) == parallelism_chain(initial, levels)
            + " → "@ + dec(next as nat),
        token_lines(tokens).len() == tokens.len(),
        0 <= i < tokens.len() ==> token_lines(tokens)[i] == tokens[i].0.handle() + " "@
            + tokens_text(tokens[i].1 as nat),
    decreases changes.len() + tokens.len(),
{
    assert(levels.push(next).drop_last() =~= levels);
    if changes.len() > 0 && tokens.len() > 0 {
        reports_list_every_change(
            changes.drop_last(),
            initial,
            levels,
            next,
            tokens.drop_last(),
            i,
        );
    } else if changes.len() > 0 {
        reports_list_every_change(changes.drop_last(), initial, levels, next, tokens, i);
    } else if tokens.len() > 0 {
        reports_list_every_change(changes, initial, levels, next, tokens.drop_last(), i);
    }
}

/// The tokens of all agents are listed, the orchestrator first, then the team agents and the meta-agents
/// by their numbers.
pub proof fn everyone_is_on_the_roll(m: MetricsView, i: int)
    ensures
        m.roll().len() == 1 + m.team_agent_count + m.meta_agent_count,
        m.roll()[0] == AgentId::Orchestrator,
        1 <= i <= m.team_agent_count ==> m.roll()[i] == AgentId::Team(i as u64),
        1 <= i <= m.meta_agent_count ==> m.roll()[m.team_agent_count + i] == AgentId::Meta(
            i as u64,
        ),
{
}

} // verus!
