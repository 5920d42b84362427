//! The event stream of a run: where it resumes, what it sends, and when it ends.
use crate::serve::discovery::{line_views, RunState};
use crate::text::{chars_of, number, parse_number, trim, trimmed};
use vstd::prelude::*;

verus! {

/// What the frame that announces an abort carries.
pub const ABORT_DATA: &'static str = "{\"state\":\"aborted\"}";

/// A frame of a stream.
#[derive(PartialEq, Eq, Debug)]
pub enum Frame {
    /// When to reconnect, in milliseconds.
    Retry(u64),
    /// An event: its id and its line as it is written.
    Data { id: u64, line: String },
    /// The run has died.
    Abort,
}

/// A frame of a stream in specifications.
pub enum FrameView {
    /// When to reconnect, in milliseconds.
    Retry(u64),
    /// An event: its id and its line as it is written.
    Data { id: u64, line: Seq<char> },
    /// The run has died.
    Abort,
}

impl View for Frame {
    type V = FrameView;

    open spec fn view(&self) -> FrameView {
        match self {
            Frame::Retry(ms) => FrameView::Retry(*ms),
            Frame::Data { id, line } => FrameView::Data { id: *id, line: line@ },
            Frame::Abort => FrameView::Abort,
        }
    }
}

/// What a list of frames holds.
pub open spec fn frame_views(v: Seq<Frame>) -> Seq<FrameView> {
    Seq::new(v.len(), |i: int| v[i]@)
}

/// A value that is not blank, without white space around it.
pub open spec fn given(value: Option<Seq<char>>) -> Option<Seq<char>> {
    match value {
        Some(v) => if trim(v).len() > 0 {
            Some(trim(v))
        } else {
            None
        },
        None => None,
    }
}

/// The first id to send: the one after the id in the header, or else in the query; from the start
/// where neither is given. There is none where what is given does not read.
pub open spec fn start_of(header: Option<Seq<char>>, from: Option<Seq<char>>) -> Option<u64> {
    let raw = match given(header) {
        Some(v) => Some(v),
        None => given(from),
    };
    match raw {
        Some(v) => match number(v, u64::MAX as nat) {
            Some(n) => if n < u64::MAX {
                Some((n + 1) as u64)
            } else {
                Some(u64::MAX)
            },
            None => None,
        },
        None => Some(0),
    }
}

fn given_number(value: Option<&str>) -> (r: Option<Option<u64>>)
    ensures
        match r {
            Some(n) => {
                let v = given(
                    match value {
                        Some(v) => Some(v@),
                        None => None,
                    },
                );
                v is Some && match n {
                    Some(n) => number(v->0, u64::MAX as nat) == Some(n as nat),
                    None => number(v->0, u64::MAX as nat) is None,
                }
            },
            None => given(
                match value {
                    Some(v) => Some(v@),
                    None => None,
                },
            ) is None,
        },
{
    match value {
        Some(v) => {
            let s = chars_of(v);
            let t = trimmed(s.as_slice());
            if t.len() == 0 {
                None
            } else {
                Some(parse_number(t, u64::MAX))
            }
        },
        None => None,
    }
}

/// Reads where a stream resumes.
pub fn resume_start(header: Option<&str>, from_query: Option<&str>) -> (r: Result<u64, ()>)
    ensures
        ({
            let s = start_of(
                match header {
                    Some(v) => Some(v@),
                    None => None,
                },
                match from_query {
                    Some(v) => Some(v@),
                    None => None,
                },
            );
            match r {
                Ok(n) => s == Some(n),
                Err(_) => s is None,
            }
        }),
{
    let raw = match given_number(header) {
        Some(n) => Some(n),
        None => given_number(from_query),
    };
    match raw {
        Some(Some(n)) => if n < u64::MAX {
            Ok(n + 1)
        } else {
            Ok(u64::MAX)
        },
        Some(None) => Err(()),
        None => Ok(0),
    }
}

/// The lines whose id is not below `start`.
pub open spec fn from_id(lines: Seq<(u64, Seq<char>)>, start: u64) -> Seq<(u64, Seq<char>)>
    decreases lines.len(),
{
    if lines.len() == 0 {
        lines
    } else {
        let rest = from_id(lines.drop_last(), start);
        if lines.last().0 >= start {
            rest.push(lines.last())
        } else {
            rest
        }
    }
}

/// The lines that a stream from `start` sends again.
pub fn replay_from(lines: &Vec<(u64, String)>, start: u64) -> (r: Vec<(u64, String)>)
    ensures
        line_views(r@) == from_id(line_views(lines@), start),
{
    let mut r: Vec<(u64, String)> = Vec::new();
    let ghost all = line_views(lines@);
    let mut i: usize = 0;
    assert(all.take(0) =~= Seq::<(u64, Seq<char>)>::empty());
    assert(line_views(r@) =~= Seq::<(u64, Seq<char>)>::empty());
    while i < lines.len()
        invariant
            0 <= i <= lines.len(),
            all == line_views(lines@),
            line_views(r@) == from_id(all.take(i as int), start),
        decreases lines.len() - i,
    {
        assert(all.take(i + 1).drop_last() =~= all.take(i as int));
        assert(all.take(i + 1).last() == (lines@[i as int].0, lines@[i as int].1@));
        if lines[i].0 >= start {
            let ghost before = line_views(r@);
            r.push((lines[i].0, lines[i].1.clone()));
            assert(line_views(r@) =~= before.push((lines@[i as int].0, lines@[i as int].1@)));
        }
        i = i + 1;
    }
    assert(all.take(i as int) =~= all);
    r
}

/// There is nothing to send from `start` on: the last line comes before it.
pub open spec fn caught_up(lines: Seq<(u64, Seq<char>)>, start: u64) -> bool {
    lines.len() == 0 || start > lines.last().0
}

/// Lines as frames.
pub open spec fn data_frames(lines: Seq<(u64, Seq<char>)>) -> Seq<FrameView> {
    Seq::new(lines.len(), |i: int| FrameView::Data { id: lines[i].0, line: lines[i].1 })
}

/// The whole stream of a run that is over: when to reconnect, the lines from `start` on, and word of
/// its death if it died. There is none for a client that has caught up.
pub open spec fn terminal_stream(
    lines: Seq<(u64, Seq<char>)>,
    start: u64,
    retry_ms: u64,
    aborted: bool,
) -> Option<Seq<FrameView>> {
    if caught_up(lines, start) {
        None
    } else {
        Some(
            seq![FrameView::Retry(retry_ms)] + data_frames(from_id(lines, start)) + (if aborted {
                seq![FrameView::Abort]
            } else {
                Seq::empty()
            }),
        )
    }
}

/// Makes the whole stream of a run that is over.
pub fn terminal_frames(
    lines: &Vec<(u64, String)>,
    start: u64,
    retry_ms: u64,
    state: RunState,
) -> (r: Option<Vec<Frame>>)
    ensures
        match r {
            Some(f) => terminal_stream(
                line_views(lines@),
                start,
                retry_ms,
                state == RunState::Aborted,
            ) == Some(frame_views(f@)),
            None => terminal_stream(
                line_views(lines@),
                start,
                retry_ms,
                state == RunState::Aborted,
            ) is None,
        },
{
    let n: usize = lines.len();
    assert(line_views(lines@).len() == n);
    if n == 0 {
        return None;
    }
    assert(line_views(lines@).last() == (lines@[n - 1].0, lines@[n - 1].1@));
    if start > lines[n - 1].0 {
        return None;
    }
    let replay = replay_from(lines, start);
    let ghost sent = line_views(replay@);
    let mut frames: Vec<Frame> = Vec::new();
    frames.push(Frame::Retry(retry_ms));
    let mut i: usize = 0;
    assert(frame_views(frames@) =~= seq![FrameView::Retry(retry_ms)] + data_frames(sent.take(0)));
    while i < replay.len()
        invariant
            0 <= i <= replay.len(),
            sent == line_views(replay@),
            frame_views(frames@) == seq![FrameView::Retry(retry_ms)] + data_frames(
                sent.take(i as int),
            ),
        decreases replay.len() - i,
    {
        let ghost before = frame_views(frames@);
        frames.push(Frame::Data { id: replay[i].0, line: replay[i].1.clone() });
        let ghost frame = FrameView::Data { id: sent[i as int].0, line: sent[i as int].1 };
        assert(frames@.last()@ == frame);
        assert(frame_views(frames@) =~= before.push(frame));
        assert(data_frames(sent.take(i + 1)) =~= data_frames(sent.take(i as int)).push(frame));
        assert(frame_views(frames@) =~= seq![FrameView::Retry(retry_ms)] + data_frames(
            sent.take(i + 1),
        ));
        i = i + 1;
    }
    assert(sent.take(i as int) =~= sent);
    if state == RunState::Aborted {
        let ghost before = frame_views(frames@);
        frames.push(Frame::Abort);
        assert(frame_views(frames@) =~= before + seq![FrameView::Abort]);
    } else {
        assert(frame_views(frames@) =~= frame_views(frames@) + Seq::empty());
    }
    Some(frames)
}

/// How a request for a stream is answered.
#[derive(PartialEq, Eq, Debug)]
pub enum StreamAnswer {
    /// Where to resume does not read.
    BadRequest,
    /// There is no such run.
    NotFound,
    /// The run is live: a stream that starts with this id.
    Live { start: u64 },
    /// The run is over and the client has caught up.
    NoContent,
    /// The run is over: all that is left to send.
    Replay(Vec<Frame>),
}

/// Answers a request for a stream: where to resume is looked at first, then whether there is such a
/// run and how it stands.
pub fn answer_stream(
    start: Result<u64, ()>,
    state: Option<RunState>,
    lines: &Vec<(u64, String)>,
    retry_ms: u64,
) -> (r: StreamAnswer)
    ensures
        match (start, state) {
            (Err(_), _) => r is BadRequest,
            (Ok(_), None) => r is NotFound,
            (Ok(s), Some(RunState::Live)) => r == (StreamAnswer::Live { start: s }),
            (Ok(s), Some(over)) => match terminal_stream(
                line_views(lines@),
                s,
                retry_ms,
                over == RunState::Aborted,
            ) {
                Some(frames) => r matches StreamAnswer::Replay(sent) && frame_views(sent@)
                    == frames,
                None => r is NoContent,
            },
        },
{
    let s: u64 = match start {
        Ok(s) => s,
        Err(_) => {
            return StreamAnswer::BadRequest;
        },
    };
    match state {
        None => StreamAnswer::NotFound,
        Some(RunState::Live) => StreamAnswer::Live { start: s },
        Some(over) => match terminal_frames(lines, s, retry_ms, over) {
            Some(frames) => StreamAnswer::Replay(frames),
            None => StreamAnswer::NoContent,
        },
    }
}

/// What arrives on the line of a live run.
#[derive(Debug)]
pub enum LiveMsg {
    /// An event.
    Event { id: u64, line: String },
    /// The run has died.
    Aborted,
    /// Messages were lost, because the client is too slow.
    Lagged,
    /// Nothing more will come.
    Closed,
}

/// What a live stream does with a message.
#[derive(Debug)]
pub enum LiveStep {
    /// Send a frame and go on.
    Send(Frame),
    /// Go on.
    Skip,
    /// Send a frame and end.
    SendLast(Frame),
    /// End.
    End,
}

/// How far a live stream has come: `next` is the only id that it sends next.
#[derive(Clone, Copy, PartialEq, Eq, Structural, Debug)]
pub struct LiveCursor {
    next: u128,
}

impl LiveCursor {
    /// The id that is sent next.
    pub closed spec fn at(self) -> nat {
        self.next as nat
    }

    /// A stream that starts with an id.
    pub fn new(start: u64) -> (c: LiveCursor)
        ensures
            c.at() == start,
    {
        LiveCursor { next: start as u128 }
    }

    /// Decides on an event, from the log or from the line: the next one is sent, one that was sent
    /// before is passed over, and one beyond the next ends the stream, so that no gap is ever sent.
    pub fn pass(&mut self, id: u64, line: String) -> (r: LiveStep)
        ensures
            id == old(self).at() ==> r is Send && r->Send_0@ == (FrameView::Data { id, line: line@ })
                && final(self).at() == id + 1,
            id < old(self).at() ==> r is Skip && final(self).at() == old(self).at(),
            id > old(self).at() ==> r is End && final(self).at() == old(self).at(),
    {
        let n: u128 = id as u128;
        if n == self.next {
            self.next = n + 1;
            LiveStep::Send(Frame::Data { id, line })
        } else if n < self.next {
            LiveStep::Skip
        } else {
            LiveStep::End
        }
    }

    /// Decides on a message: an event as above, an abort is sent and ends the stream, and a loss or
    /// the end of the line ends it.
    pub fn step(&mut self, msg: LiveMsg) -> (r: LiveStep)
        ensures
            match msg {
                LiveMsg::Event { id, line } => {
                    &&& id == old(self).at() ==> r is Send && r->Send_0@ == (FrameView::Data {
                        id,
                        line: line@,
                    }) && final(self).at() == id + 1
                    &&& id < old(self).at() ==> r is Skip && final(self).at() == old(self).at()
                    &&& id > old(self).at() ==> r is End && final(self).at() == old(self).at()
                },
                LiveMsg::Aborted => r is SendLast && r->SendLast_0@ == FrameView::Abort
                    && final(self).at() == old(self).at(),
                LiveMsg::Lagged => r is End && final(self).at() == old(self).at(),
                LiveMsg::Closed => r is End && final(self).at() == old(self).at(),
            },
    {
        match msg {
            LiveMsg::Event { id, line } => self.pass(id, line),
            LiveMsg::Aborted => LiveStep::SendLast(Frame::Abort),
            LiveMsg::Lagged => LiveStep::End,
            LiveMsg::Closed => LiveStep::End,
        }
    }
}

/// What the reader of a live log does after a look at how the run stands.
#[derive(Clone, Copy, PartialEq, Eq, Structural, Debug)]
pub enum TailStep {
    /// Stop: the end of the run has been passed on.
    Stop,
    /// Pass on that the run has died, and stop.
    Abort,
    /// Stop: nobody listens.
    Idle,
    /// Look again later.
    Wait,
}

/// Decides what the reader of a live log does.
pub fn tail_step(state: RunState, listeners: usize) -> (s: TailStep)
    ensures
        s == match state {
            RunState::Finished => TailStep::Stop,
            RunState::Aborted => TailStep::Abort,
            RunState::Live => if listeners == 0 {
                TailStep::Idle
            } else {
                TailStep::Wait
            },
        },
{
    match state {
        RunState::Finished => TailStep::Stop,
        RunState::Aborted => TailStep::Abort,
        RunState::Live => if listeners == 0 {
            TailStep::Idle
        } else {
            TailStep::Wait
        },
    }
}

// ---------------------------------------------------------------------------
// Laws.
// ---------------------------------------------------------------------------

/// What a stream has sent of events with the given ids, the id that it sends next, and whether a gap
/// has ended it.
pub struct Sent {
    /// The ids that were sent.
    pub ids: Seq<u64>,
    /// The id that is sent next.
    pub next: nat,
    /// A gap has ended the stream.
    pub over: bool,
}

/// What a stream sends of events with the given ids.
pub open spec fn sent_ids(start: nat, ids: Seq<u64>) -> Sent
    decreases ids.len(),
{
    if ids.len() == 0 {
        Sent { ids: Seq::empty(), next: start, over: false }
    } else {
        let s = sent_ids(start, ids.drop_last());
        if s.over || ids.last() < s.next {
            s
        } else if ids.last() == s.next {
            Sent { ids: s.ids.push(ids.last()), next: s.next + 1, over: false }
        } else {
            Sent { over: true, ..s }
        }
    }
}

/// The ids from `a` up to but not including `b`.
pub open spec fn ids_between(a: nat, b: nat) -> Seq<u64> {
    Seq::new((b - a) as nat, |i: int| (a + i) as u64)
}

/// A stream never sends a gap, whatever arrives: it sends its start and the ids that follow, each
/// once and in order.
pub proof fn streams_have_no_gaps(start: nat, ids: Seq<u64>)
    ensures
        sent_ids(start, ids).next >= start,
        sent_ids(start, ids).ids == ids_between(start, sent_ids(start, ids).next),
    decreases ids.len(),
{
    if ids.len() == 0 {
        assert(ids_between(start, start) =~= Seq::<u64>::empty());
    } else {
        streams_have_no_gaps(start, ids.drop_last());
        let s = sent_ids(start, ids.drop_last());
        assert(s.ids.push(s.next as u64) =~= ids_between(start, s.next + 1));
    }
}

proof fn lemma_sent_run(start: nat, ids: Seq<u64>, a: nat, b: nat)
    requires
        a <= b <= u64::MAX,
        sent_ids(start, ids).next >= a,
        !sent_ids(start, ids).over,
    ensures
        !sent_ids(start, ids + ids_between(a, b)).over,
        sent_ids(start, ids + ids_between(a, b)).next == if b <= sent_ids(start, ids).next {
            sent_ids(start, ids).next
        } else {
            b
        },
    decreases b - a,
{
    if a == b {
        assert(ids + ids_between(a, b) =~= ids);
    } else {
        let last = (b - 1) as nat;
        lemma_sent_run(start, ids, a, last);
        let all = ids + ids_between(a, b);
        assert(all.drop_last() =~= ids + ids_between(a, last));
        assert(all.last() == last as u64);
    }
}

/// Catching up from the log and then listening loses nothing and repeats nothing: where the log holds
/// the ids up to `caught` and the line brings those from `joined` to `end`, and the two overlap or
/// meet, the stream sends exactly those from its start to `end`.
pub proof fn catch_up_is_seamless(start: nat, caught: nat, joined: nat, end: nat)
    requires
        start <= caught,
        joined <= caught <= end <= u64::MAX,
    ensures
        sent_ids(start, ids_between(start, caught) + ids_between(joined, end)) == (Sent {
            ids: ids_between(start, end),
            next: end,
            over: false,
        }),
{
    let none = Seq::<u64>::empty();
    assert(!sent_ids(start, none).over && sent_ids(start, none).next == start);
    lemma_sent_run(start, none, start, caught);
    let first = ids_between(start, caught);
    assert(none + first =~= first);
    lemma_sent_run(start, first, joined, end);
    streams_have_no_gaps(start, first + ids_between(joined, end));
}

/// A client that says it has seen an id gets the next one first.
pub proof fn resuming_goes_on(n: u64, from: Option<Seq<char>>)
    requires
        n < u64::MAX,
    ensures
        start_of(Some(crate::text::dec(n as nat)), from) == Some((n + 1) as u64),
{
    let d = crate::text::dec(n as nat);
    crate::text::lemma_dec(n as nat);
    crate::text::number_of_dec(n as nat, u64::MAX as nat);
    lemma_digits_trimmed(d);
}

proof fn lemma_digits_trimmed(s: Seq<char>)
    requires
        crate::text::all_digits(s),
        s.len() > 0,
    ensures
        trim(s) == s,
{
    assert(crate::text::is_digit(s[0]));
    assert(crate::text::is_digit(s[s.len() - 1]));
    assert(!crate::text::is_space(s[0]));
    assert(!crate::text::is_space(s.last()));
}

} // verus!
