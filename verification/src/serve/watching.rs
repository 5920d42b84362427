//! What a watcher of a run is sent and shown, told from the lines of its log.
use crate::agent::AgentId;
use crate::event::{Event, EventSource, EventView, KindView, RestoredState};
use crate::ids::RunId;
use crate::json::{bytes_json, key_at, lemma_key_at, JsonView};
use crate::serve::discovery::{
    header_of, last_value, numbered_line, numbered_lines, ordered, place, under, whole_or_zero,
    DiscoveredRun, RunState,
};
use crate::serve::fold::{
    agents_applied, entry_at, field_place, run_of, with_field, AgentWireState, ClientAgent,
};
use crate::serve::stream::{from_id, given, start_of, terminal_stream, FrameView};
use crate::text::{number, text_less};
use vstd::prelude::*;

verus! {

/// A stream from an id on sends the lines with that id or a later one, each once and in their order, and
/// no others.
pub proof fn replays_send_what_is_left(lines: Seq<(u64, Seq<char>)>, start: u64, line: (u64, Seq<char>))
    requires
        forall|i: int, j: int|
            0 <= i < j < lines.len() ==> (#[trigger] lines[i]).0 < (#[trigger] lines[j]).0,
    ensures
        ({
            let sent = from_id(lines, start);
            &&& sent.contains(line) <==> lines.contains(line) && line.0 >= start
            &&& forall|i: int, j: int|
                0 <= i < j < sent.len() ==> (#[trigger] sent[i]).0 < (#[trigger] sent[j]).0
            &&& forall|i: int| 0 <= i < sent.len() ==> lines.contains(#[trigger] sent[i])
            &&& start == 0 ==> sent == lines
        }),
    decreases lines.len(),
{
    let sent = from_id(lines, start);
    if lines.len() > 0 {
        let front = lines.drop_last();
        let before = from_id(front, start);
        let last = lines.len() - 1;
        assert forall|i: int, j: int| 0 <= i < j < front.len() implies (#[trigger] front[i]).0 < (
        #[trigger] front[j]).0 by {
            assert(lines[i].0 < lines[j].0);
        }
        replays_send_what_is_left(front, start, line);
        assert forall|i: int| 0 <= i < sent.len() implies lines.contains(#[trigger] sent[i]) by {
            if i < before.len() {
                assert(front.contains(before[i]));
                let k = choose|k: int| 0 <= k < front.len() && front[k] == before[i];
                assert(lines[k] == sent[i]);
            } else {
                assert(lines[last] == sent[i]);
            }
        }
        assert forall|i: int, j: int| 0 <= i < j < sent.len() implies (#[trigger] sent[i]).0 < (
        #[trigger] sent[j]).0 by {
            if j < before.len() {
                assert(before[i].0 < before[j].0);
            } else {
                assert(front.contains(before[i]));
                let k = choose|k: int| 0 <= k < front.len() && front[k] == before[i];
                assert(lines[k].0 < lines[last].0);
            }
        }
        if lines.contains(line) {
            let k = choose|k: int| 0 <= k < lines.len() && lines[k] == line;
            if k < last {
                assert(front[k] == line);
            }
        }
        if front.contains(line) {
            let k = choose|k: int| 0 <= k < front.len() && front[k] == line;
            assert(lines[k] == line);
        }
        if before.contains(line) {
            let k = choose|k: int| 0 <= k < before.len() && before[k] == line;
            assert(sent[k] == line);
        }
        if sent.contains(line) {
            let k = choose|k: int| 0 <= k < sent.len() && sent[k] == line;
            if k < before.len() {
                assert(before[k] == line);
            } else {
                assert(lines[last] == line);
            }
        }
        if lines[last] == line && line.0 >= start {
            assert(sent[before.len() as int] == line);
        }
        if start == 0 {
            assert(sent =~= lines);
        }
    } else {
        assert(sent =~= lines);
    }
}

/// The stream of a run that is over opens with when to reconnect, goes on with what is left of the log,
/// line by line as it is written, and closes with word of the run's death exactly if it died. A client
/// that has seen the last line is sent nothing.
pub proof fn streams_of_dead_runs_are_whole(
    lines: Seq<(u64, Seq<char>)>,
    start: u64,
    retry: u64,
    aborted: bool,
    i: int,
)
    ensures
        ({
            let left = from_id(lines, start);
            let seen = lines.len() == 0 || lines.last().0 < start;
            &&& seen <==> terminal_stream(lines, start, retry, aborted) is None
            &&& terminal_stream(lines, start, retry, aborted) matches Some(frames) ==> {
                &&& frames.len() == 1 + left.len() + (if aborted {
                    1int
                } else {
                    0
                })
                &&& frames[0] == FrameView::Retry(retry)
                &&& 0 <= i < left.len() ==> frames[1 + i] == (FrameView::Data {
                    id: left[i].0,
                    line: left[i].1,
                })
                &&& aborted ==> frames.last() is Abort
            }
        }),
{
}

/// A stream starts behind the id that the client saw last. The header goes before the query; a blank one
/// counts as none; with neither it starts at the beginning; and what is given but is no number is
/// refused, also where the other would read.
pub proof fn streams_start_behind_what_was_seen(
    header: Option<Seq<char>>,
    query: Option<Seq<char>>,
)
    ensures
        given(header) is None && given(query) is None ==> start_of(header, query) == Some(0u64),
        given(header) is Some ==> start_of(header, query) == start_of(header, None),
        given(header) is None ==> start_of(header, query) == start_of(None, query),
        given(header) matches Some(text) ==> match number(text, u64::MAX as nat) {
            None => start_of(header, query) is None,
            Some(n) => n < u64::MAX ==> start_of(header, query) == Some((n + 1) as u64),
        },
        given(header) is None ==> (given(query) matches Some(text) ==> match number(
            text,
            u64::MAX as nat,
        ) {
            None => start_of(header, query) is None,
            Some(n) => n < u64::MAX ==> start_of(header, query) == Some((n + 1) as u64),
        }),
{
}

/// Every line of a log that is text and carries an id is read, in order; the others are passed over.
pub proof fn lines_with_ids_are_read(lines: Seq<Seq<u8>>, i: int)
    requires
        0 <= i < lines.len(),
    ensures
        numbered_lines(lines).len() <= lines.len(),
        numbered_line(lines[i]) matches Some(line) ==> numbered_lines(lines).contains(line),
        (forall|k: int| 0 <= k < lines.len() ==> numbered_line(#[trigger] lines[k]) is Some)
            ==> numbered_lines(lines).len() == lines.len() && numbered_line(lines[i]) == Some(
            numbered_lines(lines)[i],
        ),
    decreases lines.len(),
{
    let front = lines.drop_last();
    let all = numbered_lines(lines);
    let before = numbered_lines(front);
    let last = lines.len() - 1;
    if front.len() > 0 {
        lines_with_ids_are_read(front, if i < last { i } else { 0 });
    } else {
        assert(before =~= Seq::<(u64, Seq<char>)>::empty());
    }
    if let Some(line) = numbered_line(lines[i]) {
        if i < last {
            let k = choose|k: int| 0 <= k < before.len() && before[k] == line;
            assert(all[k] == line);
        } else {
            assert(all[before.len() as int] == line);
        }
    }
    if forall|k: int| 0 <= k < lines.len() ==> numbered_line(#[trigger] lines[k]) is Some {
        assert forall|k: int| 0 <= k < front.len() implies numbered_line(#[trigger] front[k])
            is Some by {
            assert(numbered_line(lines[k]) is Some);
        }
        assert(numbered_line(lines[last]) is Some);
    }
}

/// What an event tells watchers that an agent does from then on, if it tells anything.
pub open spec fn shown_as(e: EventView, agent: AgentId) -> Option<AgentWireState> {
    let acts = e.source == EventSource::Agent(agent);
    match e.kind {
        KindView::TaskClaimed { task, .. } => if acts {
            Some(AgentWireState::Working { task })
        } else {
            None
        },
        KindView::TaskReleased { .. } => if acts {
            Some(AgentWireState::Idle)
        } else {
            None
        },
        KindView::TaskCompleted { .. } => if acts {
            Some(AgentWireState::Idle)
        } else {
            None
        },
        KindView::TaskUnassigned { prev_claimant, .. } => if prev_claimant == agent {
            Some(AgentWireState::Idle)
        } else {
            None
        },
        KindView::AgentSlept { agent: a, .. } => if a == agent {
            Some(AgentWireState::Asleep)
        } else {
            None
        },
        KindView::AgentParked { agent: a, .. } => if a == agent {
            Some(AgentWireState::Parked)
        } else {
            None
        },
        KindView::AgentWoke { agent: a, restored, .. } => if a == agent {
            Some(
                match restored {
                    RestoredState::Working { task } => AgentWireState::Working { task },
                    RestoredState::Idle => AgentWireState::Idle,
                },
            )
        } else {
            None
        },
        _ => None,
    }
}

proof fn lemma_entry(agents: Seq<ClientAgent>, agent: AgentId, i: int)
    requires
        i >= 0,
    ensures
        match entry_at(agents, agent, i) {
            Some(k) => i <= k < agents.len() && agents[k].handle == agent,
            None => forall|j: int| i <= j < agents.len() ==> (#[trigger] agents[j]).handle != agent,
        },
    decreases agents.len() - i,
{
    if i < agents.len() {
        lemma_entry(agents, agent, i + 1);
    }
}

/// Watchers see each agent as the last event about it says, and under the specialty that it got last; a
/// parked agent shows as parked, not as asleep.
pub proof fn watchers_see_the_last_word(agents: Seq<ClientAgent>, e: EventView, i: int)
    requires
        0 <= i < agents.len(),
        forall|a: int, b: int|
            0 <= a < agents.len() && 0 <= b < agents.len() && (#[trigger] agents[a]).handle == (
            #[trigger] agents[b]).handle ==> a == b,
        !(e.kind is RunStarted),
    ensures
        ({
            let now = agents_applied(agents, e);
            &&& now.len() == agents.len()
            &&& now[i].handle == agents[i].handle
            &&& now[i].state == match shown_as(e, agents[i].handle) {
                Some(state) => state,
                None => agents[i].state,
            }
            &&& now[i].specialty == match e.kind {
                KindView::AgentRespecialized { agent, to, .. } => if agent == agents[i].handle {
                    to
                } else {
                    agents[i].specialty
                },
                _ => agents[i].specialty,
            }
        }),
{
    let id = agents[i].handle;
    assert forall|a: AgentId|
        (entry_at(agents, a, 0) == Some(i) <==> a == id) && (#[trigger] entry_at(
            agents,
            a,
            0,
        ) matches Some(k) ==> 0 <= k < agents.len()) by {
        lemma_entry(agents, a, 0);
        lemma_entry(agents, id, 0);
        if entry_at(agents, id, 0) is Some {
            let k = entry_at(agents, id, 0)->0;
            assert(agents[k].handle == agents[i].handle);
        }
    }
}

/// At the start watchers see all team agents as idle generalists, numbered from one.
pub proof fn watchers_see_crews_idle(agents: Seq<ClientAgent>, e: EventView, i: int)
    requires
        e.kind matches KindView::RunStarted { agents: n, .. } && 0 <= i < n,
    ensures
        e.kind matches KindView::RunStarted { agents: n, .. } && {
            let now = agents_applied(agents, e);
            &&& now.len() == n
            &&& now[i].handle == AgentId::Team((i + 1) as u64)
            &&& now[i].specialty == "generalist"@
            &&& now[i].state is Idle
        },
{
}

// ---------------------------------------------------------------------------
// Runs.
// ---------------------------------------------------------------------------

proof fn lemma_unset(fields: Seq<(Seq<char>, JsonView)>, key: Seq<char>, i: int)
    requires
        0 <= i,
        key_at(fields, key, i) is None,
    ensures
        forall|k: int| i <= k < fields.len() ==> (#[trigger] fields[k]).0 != key,
    decreases fields.len() - i,
{
    if i < fields.len() {
        lemma_unset(fields, key, i + 1);
    }
}

proof fn lemma_set(fields: Seq<(Seq<char>, JsonView)>, key: Seq<char>, i: int, k: int)
    requires
        0 <= i <= k < fields.len(),
        fields[k].0 == key,
        forall|j: int| i <= j < k ==> (#[trigger] fields[j]).0 != key,
    ensures
        key_at(fields, key, i) == Some(k),
    decreases k - i,
{
    if i < k {
        lemma_set(fields, key, i + 1, k);
    }
}

proof fn lemma_same_get(
    a: Seq<(Seq<char>, JsonView)>,
    b: Seq<(Seq<char>, JsonView)>,
    p: int,
    key: Seq<char>,
    i: int,
)
    requires
        0 <= p <= a.len(),
        b.len() == a.len() + 1,
        forall|k: int| 0 <= k < p ==> b[k] == #[trigger] a[k],
        b[p].0 != key,
        forall|k: int| p < k < b.len() ==> #[trigger] b[k] == a[k - 1],
        0 <= i,
    ensures
        i <= p ==> key_at(b, key, i) == (match key_at(a, key, i) {
            Some(k) => Some(if k < p {
                k
            } else {
                k + 1
            }),
            None => None,
        }),
        i > p ==> key_at(b, key, i) == (match key_at(a, key, i - 1) {
            Some(k) => Some(k + 1),
            None => None,
        }),
        key_at(a, key, i) matches Some(k) ==> i <= k < a.len(),
    decreases b.len() - i,
{
    if i < b.len() {
        lemma_same_get(a, b, p, key, i + 1);
        if i < p {
            assert(b[i] == a[i]);
        } else if i > p {
            assert(b[i] == a[i - 1]);
        }
    }
}

proof fn lemma_place(fields: Seq<(Seq<char>, JsonView)>, key: Seq<char>, i: int)
    requires
        0 <= i <= fields.len(),
    ensures
        i <= field_place(fields, key, i) <= fields.len(),
    decreases fields.len() - i,
{
    if i < fields.len() && !text_less(key, fields[i].0) {
        lemma_place(fields, key, i + 1);
    }
}

/// A run is shown as its start was logged, and with the state that it is in: every other field is
/// as it was.
pub proof fn runs_are_shown_with_their_state(
    fields: Seq<(Seq<char>, JsonView)>,
    state: RunState,
    key: Seq<char>,
)
    ensures
        run_of(JsonView::Object(fields), state).get("state"@) == Some(JsonView::Text(state.name())),
        key != "state"@ ==> run_of(JsonView::Object(fields), state).get(key) == JsonView::Object(
            fields,
        ).get(key),
{
    let word = "state"@;
    let value = JsonView::Text(state.name());
    let after = with_field(fields, word, value);
    lemma_key_at(fields, word, 0);
    match key_at(fields, word, 0) {
        Some(p) => {
            lemma_first_key(fields, word, 0);
            assert forall|j: int| 0 <= j < p implies (#[trigger] after[j]).0 != word by {
                assert(after[j] == fields[j]);
            }
            lemma_set(after, word, 0, p);
            if key != word {
                lemma_updated_get(fields, after, p, key, 0);
            }
        },
        None => {
            lemma_unset(fields, word, 0);
            lemma_place(fields, word, 0);
            let p = field_place(fields, word, 0);
            assert forall|j: int| 0 <= j < p implies (#[trigger] after[j]).0 != word by {
                assert(after[j] == fields[j]);
            }
            assert(after[p] == (word, value));
            lemma_set(after, word, 0, p);
            if key != word {
                lemma_same_get(fields, after, p, key, 0);
                if let Some(k) = key_at(fields, key, 0) {
                    if k >= p {
                        assert(after[k + 1] == fields[k]);
                    } else {
                        assert(after[k] == fields[k]);
                    }
                }
            }
        },
    }
}

proof fn lemma_first_key(fields: Seq<(Seq<char>, JsonView)>, key: Seq<char>, i: int)
    requires
        0 <= i,
    ensures
        key_at(fields, key, i) matches Some(k) ==> i <= k < fields.len() && fields[k].0 == key
            && forall|j: int| i <= j < k ==> (#[trigger] fields[j]).0 != key,
    decreases fields.len() - i,
{
    if i < fields.len() && fields[i].0 != key {
        lemma_first_key(fields, key, i + 1);
    }
}

proof fn lemma_updated_get(
    a: Seq<(Seq<char>, JsonView)>,
    b: Seq<(Seq<char>, JsonView)>,
    p: int,
    key: Seq<char>,
    i: int,
)
    requires
        0 <= p < a.len(),
        b.len() == a.len(),
        forall|k: int| 0 <= k < a.len() && k != p ==> b[k] == #[trigger] a[k],
        a[p].0 != key,
        b[p].0 != key,
        0 <= i,
    ensures
        key_at(b, key, i) == key_at(a, key, i),
        key_at(a, key, i) matches Some(k) ==> b[k] == a[k],
    decreases a.len() - i,
{
    if i < a.len() {
        lemma_updated_get(a, b, p, key, i + 1);
        if i != p {
            assert(b[i] == a[i]);
        }
    }
}

/// An agent's state is told by one word, or by the task that it works on.
pub proof fn states_are_told(state: AgentWireState)
    ensures
        state is Idle ==> state.json() == JsonView::Text("idle"@),
        state is Asleep ==> state.json() == JsonView::Text("asleep"@),
        state is Parked ==> state.json() == JsonView::Text("parked"@),
        state matches AgentWireState::Working { task } ==> {
            &&& state.json().get("working"@) is Some
            &&& state.json().get("working"@)->0.get("task"@) is Some
            &&& state.json().get("working"@)->0.get("task"@)->0.whole() == Some(task.0)
        },
{
    if let AgentWireState::Working { task } = state {
        let inner = seq![("task"@, JsonView::number(task.0))];
        lemma_set(inner, "task"@, 0, 0);
        let outer = seq![("working"@, JsonView::Object(inner))];
        lemma_set(outer, "working"@, 0, 0);
    }
}

/// The last line of a log is what is told of its end: the fields that are asked for, zero for a
/// number that is not there, and nothing for a log without lines.
pub proof fn ends_are_told_from_the_last_line(
    lines: Seq<Seq<u8>>,
    line: Seq<u8>,
    v: JsonView,
    key: Seq<char>,
    n: u64,
)
    ensures
        last_value(lines.push(line)) == bytes_json(line),
        last_value(Seq::empty()) is None,
        v.get(key) == Some(JsonView::number(n)) ==> whole_or_zero(under(v, key)) == n,
        v.get(key) is None ==> whole_or_zero(under(v, key)) == 0 && under(v, key) is Null,
        !(under(v, key) is Number) ==> whole_or_zero(under(v, key)) == 0,
{
    assert(lines.push(line).last() == line);
}

/// A run is listed behind those whose id is not greater, and before all others.
pub proof fn runs_are_listed_by_their_ids(runs: Seq<DiscoveredRun>, id: RunId, n: int)
    requires
        0 <= n <= runs.len(),
        ordered(runs),
    ensures
        0 <= place(runs, id, n) <= n,
        forall|i: int| 0 <= i < place(runs, id, n) ==> (#[trigger] runs[i]).header.run_id <= id,
        forall|i: int| place(runs, id, n) <= i < n ==> (#[trigger] runs[i]).header.run_id > id,
    decreases n,
{
    if n > 0 && runs[n - 1].header.run_id > id {
        runs_are_listed_by_their_ids(runs, id, n - 1);
    } else if n > 0 {
        assert forall|i: int| 0 <= i < n implies (#[trigger] runs[i]).header.run_id <= id by {
            if i < n - 1 {
                assert(runs[i].header.run_id <= runs[n - 1].header.run_id);
            }
        }
    }
}

/// The header of a run is what its first event says, with the raw fields of that line; a log that
/// starts otherwise has none.
pub proof fn headers_tell_the_start(first: Event, raw: JsonView)
    ensures
        match header_of(first, raw) {
            Some(h) => {
                &&& first@.kind matches KindView::RunStarted { run_id, seed, goal, .. }
                &&& h.run_id == run_id
                &&& h.seed == seed
                &&& h.goal == goal
                &&& h.started_at == first.at
                &&& raw.get("data"@) == Some(h.data)
            },
            None => !(first@.kind is RunStarted) || raw.get("data"@) is None,
        },
{
}

} // verus!
