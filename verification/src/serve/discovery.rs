//! Which runs there are and how they stand.
use crate::event::{Event, EventKind, KindView, Timestamp};
use crate::ids::{hyphenated, parse_run_id, run_id_text, uuid_of, RunId};
use crate::json::{bytes_json, parsed_json, Json, JsonView};
use crate::serve::tail::byte_lines;
use vstd::prelude::*;

verus! {

/// `String::from_utf8` takes bytes that are a text in UTF-8 and refuses others.
#[verifier::external_body]
fn text_from_bytes(bytes: &Vec<u8>) -> (r: Option<String>)
    ensures
        match r {
            Some(s) => vstd::utf8::valid_utf8(bytes@) && s@ == vstd::utf8::decode_utf8(bytes@),
            None => !vstd::utf8::valid_utf8(bytes@),
        },
{
    String::from_utf8(bytes.clone()).ok()
}

/// How a run stands.
#[derive(Clone, Copy, PartialEq, Eq, Structural, Debug)]
pub enum RunState {
    /// It is under way.
    Live,
    /// It has finished.
    Finished,
    /// It has died.
    Aborted,
}

impl RunState {
    /// The state as clients see it.
    pub open spec fn name(self) -> Seq<char> {
        match self {
            RunState::Live => "live"@,
            RunState::Finished => "finished"@,
            RunState::Aborted => "aborted"@,
        }
    }

    /// The state as clients see it.
    pub fn as_wire_str(self) -> (s: &'static str)
        ensures
            s@ == self.name(),
    {
        match self {
            RunState::Live => "live",
            RunState::Finished => "finished",
            RunState::Aborted => "aborted",
        }
    }

    /// Whether nothing more can come.
    pub fn is_terminal(self) -> (b: bool)
        ensures
            b == (self != RunState::Live),
    {
        match self {
            RunState::Live => false,
            _ => true,
        }
    }
}

/// How a run stands: finished if its log ends so, else live while its lock is held, else dead.
pub open spec fn standing(bookend: bool, lock_held: bool) -> RunState {
    if bookend {
        RunState::Finished
    } else if lock_held {
        RunState::Live
    } else {
        RunState::Aborted
    }
}

/// Whether an event ends a run.
pub open spec fn ends_run(last: Option<Event>) -> bool {
    match last {
        Some(e) => e.kind is RunFinished,
        None => false,
    }
}

/// Whether the last event of a log ends the run.
pub fn has_finished_bookend(last: &Option<Event>) -> (b: bool)
    ensures
        b == ends_run(*last),
{
    match last {
        Some(e) => match &e.kind {
            EventKind::RunFinished { .. } => true,
            _ => false,
        },
        None => false,
    }
}

/// Classifies a run by the last event of its log, if that reads, and by whether its lock is held.
pub fn classify(last: &Option<Event>, lock_held: bool) -> (s: RunState)
    ensures
        s == standing(ends_run(*last), lock_held),
{
    if has_finished_bookend(last) {
        RunState::Finished
    } else if lock_held {
        RunState::Live
    } else {
        RunState::Aborted
    }
}

/// The head of a run.
#[derive(Debug)]
pub struct RunHeader {
    /// The run.
    pub run_id: RunId,
    /// Its seed.
    pub seed: u64,
    /// Its goal.
    pub goal: String,
    /// When it started.
    pub started_at: Timestamp,
    /// What its first event carries, as it is written.
    pub data: Json,
}

/// The head of a run in specifications.
pub struct HeaderView {
    /// The run.
    pub run_id: RunId,
    /// Its seed.
    pub seed: u64,
    /// Its goal.
    pub goal: Seq<char>,
    /// When it started.
    pub started_at: Timestamp,
    /// What its first event carries, as it is written.
    pub data: JsonView,
}

impl View for RunHeader {
    type V = HeaderView;

    open spec fn view(&self) -> HeaderView {
        HeaderView {
            run_id: self.run_id,
            seed: self.seed,
            goal: self.goal@,
            started_at: self.started_at,
            data: self.data@,
        }
    }
}

/// The head of a run whose first event is given, read and as it is written: there is none unless the
/// event starts a run and carries data.
pub open spec fn header_of(first: Event, raw: JsonView) -> Option<HeaderView> {
    match (first@.kind, raw.get("data"@)) {
        (KindView::RunStarted { run_id, seed, goal, .. }, Some(data)) => Some(
            HeaderView { run_id, seed, goal, started_at: first.at, data },
        ),
        _ => None,
    }
}

/// Reads the head of a run from its first event and the line that holds it.
pub fn run_header(first: &Event, line: &Vec<u8>) -> (r: Option<RunHeader>)
    ensures
        match bytes_json(line@) {
            Some(raw) => match r {
                Some(h) => header_of(*first, raw) == Some(h@),
                None => header_of(*first, raw) is None,
            },
            None => r is None,
        },
{
    match &first.kind {
        EventKind::RunStarted { run_id, seed, goal, .. } => match Json::read(line) {
            Ok(raw) => match raw.get("data") {
                Some(data) => Some(
                    RunHeader {
                        run_id: *run_id,
                        seed: *seed,
                        goal: goal.clone(),
                        started_at: first.at,
                        data: data.clone(),
                    },
                ),
                None => None,
            },
            Err(_) => None,
        },
        _ => None,
    }
}

/// A run and where it lies.
#[derive(Debug)]
pub struct DiscoveredRun {
    /// Where it lies.
    pub path: String,
    /// Its head.
    pub header: RunHeader,
}

/// Runs are in the order of their ids.
pub open spec fn ordered(runs: Seq<DiscoveredRun>) -> bool {
    forall|i: int, j: int|
        0 <= i < j < runs.len() ==> (#[trigger] runs[i]).header.run_id <= (
        #[trigger] runs[j]).header.run_id
}

/// Where a run goes among runs in order: behind those with no greater id.
pub open spec fn place(runs: Seq<DiscoveredRun>, id: RunId, i: int) -> int
    decreases i,
{
    if i <= 0 {
        0
    } else if runs[i - 1].header.run_id <= id {
        i
    } else {
        place(runs, id, i - 1)
    }
}

/// Adds a run to a list that is in order; among runs with the same id the new one comes last.
pub fn add_run(runs: &mut Vec<DiscoveredRun>, run: DiscoveredRun)
    requires
        ordered(old(runs)@),
    ensures
        final(runs)@ == old(runs)@.insert(
            place(old(runs)@, run.header.run_id, old(runs)@.len() as int),
            run,
        ),
        ordered(final(runs)@),
{
    let id: RunId = run.header.run_id;
    let mut i: usize = runs.len();
    while i > 0 && runs[i - 1].header.run_id > id
        invariant
            0 <= i <= runs.len(),
            runs@ == old(runs)@,
            forall|k: int| i <= k < runs.len() ==> (#[trigger] runs@[k]).header.run_id > id,
            place(runs@, id, i as int) == place(runs@, id, runs@.len() as int),
        decreases i,
    {
        i = i - 1;
    }
    runs.insert(i, run);
}

/// The id that a text denotes, and the name of the directory of such a run.
pub fn run_dir_name(run_id: &str) -> (r: Option<(RunId, String)>)
    ensures
        match r {
            Some((id, name)) => uuid_of(run_id@) == Some(id) && name@ == hyphenated(id),
            None => uuid_of(run_id@) is None,
        },
{
    match parse_run_id(run_id) {
        Some(id) => Some((id, run_id_text(id))),
        None => None,
    }
}

/// The run that was asked for, if the head found under its name is its own.
pub fn confirm_run(asked: RunId, path: String, header: Option<RunHeader>) -> (r: Option<
    DiscoveredRun,
>)
    ensures
        match header {
            Some(h) => if h.run_id == asked {
                r == Some(DiscoveredRun { path, header: h })
            } else {
                r is None
            },
            None => r is None,
        },
{
    match header {
        Some(h) => if h.run_id == asked {
            Some(DiscoveredRun { path, header: h })
        } else {
            None
        },
        None => None,
    }
}

/// The id that a log line carries.
pub open spec fn line_id(line: Seq<char>) -> Option<u64> {
    match parsed_json(line) {
        Some(v) => match v.get("id"@) {
            Some(n) => n.whole(),
            None => None,
        },
        None => None,
    }
}

/// Reads the id that a log line carries.
pub fn event_id(line: &str) -> (r: Option<u64>)
    ensures
        r == line_id(line@),
{
    match Json::parse(line) {
        Some(v) => match v.get("id") {
            Some(n) => n.as_u64(),
            None => None,
        },
        None => None,
    }
}

/// A log line with its id.
pub open spec fn numbered_line(bytes: Seq<u8>) -> Option<(u64, Seq<char>)> {
    if vstd::utf8::valid_utf8(bytes) {
        let line = vstd::utf8::decode_utf8(bytes);
        match line_id(line) {
            Some(id) => Some((id, line)),
            None => None,
        }
    } else {
        None
    }
}

/// Log lines with their ids; a line that is no text or has no id is passed over.
pub open spec fn numbered_lines(lines: Seq<Seq<u8>>) -> Seq<(u64, Seq<char>)>
    decreases lines.len(),
{
    if lines.len() == 0 {
        Seq::empty()
    } else {
        let rest = numbered_lines(lines.drop_last());
        match numbered_line(lines.last()) {
            Some(l) => rest.push(l),
            None => rest,
        }
    }
}

/// What a list of numbered lines holds.
pub open spec fn line_views(v: Seq<(u64, String)>) -> Seq<(u64, Seq<char>)> {
    Seq::new(v.len(), |i: int| (v[i].0, v[i].1@))
}

/// Reads log lines with their ids.
pub fn read_event_lines(lines: &Vec<Vec<u8>>) -> (r: Vec<(u64, String)>)
    ensures
        line_views(r@) == numbered_lines(byte_lines(lines@)),
{
    let mut r: Vec<(u64, String)> = Vec::new();
    let ghost all = byte_lines(lines@);
    let mut i: usize = 0;
    assert(all.take(0) =~= Seq::<Seq<u8>>::empty());
    assert(line_views(r@) =~= Seq::<(u64, Seq<char>)>::empty());
    while i < lines.len()
        invariant
            0 <= i <= lines.len(),
            all == byte_lines(lines@),
            line_views(r@) == numbered_lines(all.take(i as int)),
        decreases lines.len() - i,
    {
        assert(all.take(i + 1).drop_last() =~= all.take(i as int));
        assert(all.take(i + 1).last() == lines@[i as int]@);
        if let Some(line) = text_from_bytes(&lines[i]) {
            if let Some(id) = event_id(line.as_str()) {
                let ghost before = line_views(r@);
                let ghost text = line@;
                r.push((id, line));
                assert(line_views(r@) =~= before.push((id, text)));
            }
        }
        i = i + 1;
    }
    assert(all.take(i as int) =~= all);
    r
}

/// The last line of a log as JSON.
pub open spec fn last_value(lines: Seq<Seq<u8>>) -> Option<JsonView> {
    if lines.len() > 0 {
        bytes_json(lines.last())
    } else {
        None
    }
}

/// Reads the last line of a log as JSON.
pub fn last_event(lines: &Vec<Vec<u8>>) -> (r: Option<Json>)
    ensures
        match r {
            Some(j) => last_value(byte_lines(lines@)) == Some(j@),
            None => last_value(byte_lines(lines@)) is None,
        },
{
    let n: usize = lines.len();
    if n == 0 {
        return None;
    }
    assert(byte_lines(lines@).last() == lines@[n - 1]@);
    match Json::read(&lines[n - 1]) {
        Ok(j) => Some(j),
        Err(_) => None,
    }
}

/// How a finished run ended, as its last event says.
#[derive(Debug)]
pub struct FinishedBlock {
    /// Why.
    pub reason: Json,
    /// The exit code.
    pub exit_code: u8,
}

/// The value under a key, or null.
pub open spec fn under(v: JsonView, key: Seq<char>) -> JsonView {
    match v.get(key) {
        Some(x) => x,
        None => JsonView::Null,
    }
}

/// An unsigned number, or zero.
pub open spec fn whole_or_zero(v: JsonView) -> u64 {
    match v.whole() {
        Some(n) => n,
        None => 0,
    }
}

fn value_under(v: &Json, key: &str) -> (r: Json)
    ensures
        r@ == under(v@, key@),
{
    match v.get(key) {
        Some(x) => x.clone(),
        None => Json::Null,
    }
}

/// A number as a client sees it, or zero.
fn number_under(v: &Json, key: &str) -> (n: u64)
    ensures
        n == whole_or_zero(under(v@, key@)),
{
    match v.get(key) {
        Some(x) => match x.as_u64() {
            Some(n) => n,
            None => 0,
        },
        None => 0,
    }
}

/// Reads how a run ended from its last event. An exit code counts by its low eight bits.
pub fn finished_block(event: &Json) -> (b: FinishedBlock)
    ensures
        b.reason@ == under(under(event@, "data"@), "reason"@),
        b.exit_code == whole_or_zero(under(under(event@, "data"@), "exit_code"@)) % 256,
{
    let data = value_under(event, "data");
    let code: u64 = number_under(&data, "exit_code");
    FinishedBlock { reason: value_under(&data, "reason"), exit_code: (code % 256) as u8 }
}

/// A run in the list of runs.
#[derive(Debug)]
pub struct RunListEntry {
    /// The run.
    pub run_id: RunId,
    /// How it stands.
    pub state: &'static str,
    /// Its goal.
    pub goal: String,
    /// Its seed.
    pub seed: u64,
    /// When it started.
    pub started_at: Timestamp,
    /// The id of its last event.
    pub last_event_id: u64,
    /// How it ended, if it has finished.
    pub finished: Option<FinishedBlock>,
}

/// Makes the entry of a run from its head, its state and its last event.
pub fn list_entry(header: &RunHeader, state: RunState, last: &Option<Json>) -> (e: RunListEntry)
    ensures
        e.run_id == header.run_id,
        e.state@ == state.name(),
        e.goal@ == header.goal@,
        e.seed == header.seed,
        e.started_at == header.started_at,
        e.last_event_id == match last {
            Some(j) => whole_or_zero(under(j@, "id"@)),
            None => 0,
        },
        match (state, last) {
            (RunState::Finished, Some(j)) => {
                &&& e.finished is Some
                &&& e.finished->0.reason@ == under(under(j@, "data"@), "reason"@)
                &&& e.finished->0.exit_code == whole_or_zero(
                    under(under(j@, "data"@), "exit_code"@),
                ) % 256
            },
            _ => e.finished is None,
        },
{
    let last_event_id: u64 = match last {
        Some(j) => number_under(j, "id"),
        None => 0,
    };
    let finished = match (state, last) {
        (RunState::Finished, Some(j)) => Some(finished_block(j)),
        _ => None,
    };
    RunListEntry {
        run_id: header.run_id,
        state: state.as_wire_str(),
        goal: header.goal.clone(),
        seed: header.seed,
        started_at: header.started_at,
        last_event_id,
        finished,
    }
}

// ---------------------------------------------------------------------------
// Laws.
// ---------------------------------------------------------------------------

/// A run whose log ends with its end is finished, whatever its lock says; another is live exactly
/// while its lock is held.
pub proof fn standings(bookend: bool, lock_held: bool)
    ensures
        (standing(bookend, lock_held) == RunState::Finished) == bookend,
        (standing(bookend, lock_held) == RunState::Live) == (!bookend && lock_held),
        (standing(bookend, lock_held) == RunState::Aborted) == (!bookend && !lock_held),
{
}

} // verus!
