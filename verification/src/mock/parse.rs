//! What a prompt shows, read back: the sections of the last user message, the calls of the turn
//! under way, and the tools on offer. Lines that do not read are passed over.
use crate::text::{
    after_last, after_prefix, before_last, chars_of, find, find_back, is_space,
    lemma_less_irreflexive, lemma_less_transitive, no_lines, number, parse_number, precedes,
    push_line, same, seek, seek_back, space, spells, split_first, split_first_space, split_last,
    split_once, split_space, split_words, strip_last, strip_prefix, text_less, text_of, texts, trim,
    trim_start, trimmed, trimmed_start, words, Separator,
};
use vstd::prelude::*;

verus! {

// ---------------------------------------------------------------------------
// Pieces of text.
// ---------------------------------------------------------------------------

/// A text read as a number of 64 bits.
pub open spec fn whole(s: Seq<char>) -> Option<u64> {
    match number(s, u64::MAX as nat) {
        Some(n) => Some(n as u64),
        None => None,
    }
}

fn read_whole(s: &[char]) -> (r: Option<u64>)
    ensures
        r == whole(s@),
{
    parse_number(s, u64::MAX)
}

/// A text read as a number of 32 bits.
pub open spec fn small(s: Seq<char>) -> Option<u32> {
    match number(s, u32::MAX as nat) {
        Some(n) => Some(n as u32),
        None => None,
    }
}

fn read_small(s: &[char]) -> (r: Option<u32>)
    ensures
        r == small(s@),
{
    match parse_number(s, u32::MAX as u64) {
        Some(n) => Some(n as u32),
        None => None,
    }
}

/// The `k`-th of the parts into which a text falls at a separator.
pub open spec fn piece(s: Seq<char>, sep: Seq<char>, k: nat) -> Option<Seq<char>>
    decreases k,
{
    match split_once(s, sep) {
        Some((a, b)) => if k == 0 {
            Some(a)
        } else {
            piece(b, sep, (k - 1) as nat)
        },
        None => if k == 0 {
            Some(s)
        } else {
            None
        },
    }
}

fn nth_piece<'a>(s: &'a [char], sep: &str, k: usize) -> (r: Option<&'a [char]>)
    ensures
        match r {
            Some(p) => piece(s@, sep@, k as nat) == Some(p@),
            None => piece(s@, sep@, k as nat) is None,
        },
    decreases k,
{
    match split_first(s, sep) {
        Some((a, b)) => if k == 0 {
            Some(a)
        } else {
            nth_piece(b, sep, k - 1)
        },
        None => if k == 0 {
            Some(s)
        } else {
            None
        },
    }
}

/// The text between the first and the last double quote.
pub open spec fn between(s: Seq<char>) -> Option<Seq<char>> {
    match (seek(s, "\""@, 0), seek_back(s, "\""@, s.len() as int)) {
        (Some(a), Some(b)) => if b > a {
            Some(s.subrange(a + 1, b))
        } else {
            None
        },
        _ => None,
    }
}

fn between_quotes(s: &[char]) -> (r: Option<&[char]>)
    ensures
        match r {
            Some(t) => between(s@) == Some(t@),
            None => between(s@) is None,
        },
{
    let quote = chars_of("\"");
    proof {
        reveal_strlit("\"");
    }
    let start: usize = match find(s, quote.as_slice()) {
        Some(i) => i,
        None => {
            return None;
        },
    };
    let end: usize = match find_back(s, quote.as_slice()) {
        Some(i) => i,
        None => {
            return None;
        },
    };
    if end > start {
        Some(vstd::slice::slice_subrange(s, start + 1, end))
    } else {
        None
    }
}

/// A tag, of which `-` stands for none.
pub open spec fn tag(s: Seq<char>) -> Option<Seq<char>> {
    if s == "-"@ {
        None
    } else {
        Some(s)
    }
}

/// An optional text.
pub open spec fn opt_text(o: Option<String>) -> Option<Seq<char>> {
    match o {
        Some(t) => Some(t@),
        None => None,
    }
}

fn read_tag(s: &[char]) -> (r: Option<String>)
    ensures
        opt_text(r) == tag(s@),
{
    if spells(s, "-") {
        None
    } else {
        Some(text_of(s))
    }
}

/// A line that stands for nothing.
pub open spec fn is_placeholder(s: Seq<char>) -> bool {
    s == "(empty)"@ || s == "(none)"@ || s == "(none issued)"@
}

/// The first line from `i` on that is neither blank nor a placeholder.
pub open spec fn content_at(ls: Seq<Seq<char>>, i: int) -> Option<int>
    decreases ls.len() - i,
{
    if i < 0 || i >= ls.len() {
        None
    } else if ls[i].len() > 0 && !is_placeholder(ls[i]) {
        Some(i)
    } else {
        content_at(ls, i + 1)
    }
}

fn find_content(ls: &Vec<String>) -> (r: Option<usize>)
    ensures
        match r {
            Some(i) => content_at(texts(ls@), 0) == Some(i as int) && i < ls.len(),
            None => content_at(texts(ls@), 0) is None,
        },
{
    let mut i: usize = 0;
    while i < ls.len()
        invariant
            0 <= i <= ls.len(),
            content_at(texts(ls@), 0) == content_at(texts(ls@), i as int),
        decreases ls.len() - i,
    {
        let line = ls[i].as_str();
        let blank = same(line, "");
        proof {
            reveal_strlit("");
            assert(blank == (line@.len() == 0)) by {
                if line@.len() == 0 {
                    assert(line@ =~= ""@);
                }
            }
        }
        if !blank && !same(line, "(empty)") && !same(line, "(none)") && !same(
            line,
            "(none issued)",
        ) {
            return Some(i);
        }
        i = i + 1;
    }
    None
}

// ---------------------------------------------------------------------------
// Tasks.
// ---------------------------------------------------------------------------

/// The state of a task as a line shows it.
#[derive(PartialEq, Eq, Debug)]
pub enum TaskState {
    /// Open.
    Open,
    /// Claimed, and by whom.
    Claimed { by: String },
    /// Done.
    Done,
    /// Cancelled.
    Cancelled,
}

/// The state of a task as a line shows it, in specifications.
pub enum ShownState {
    /// Open.
    Open,
    /// Claimed, and by whom.
    Claimed { by: Seq<char> },
    /// Done.
    Done,
    /// Cancelled.
    Cancelled,
}

impl View for TaskState {
    type V = ShownState;

    open spec fn view(&self) -> ShownState {
        match self {
            TaskState::Open => ShownState::Open,
            TaskState::Claimed { by } => ShownState::Claimed { by: by@ },
            TaskState::Done => ShownState::Done,
            TaskState::Cancelled => ShownState::Cancelled,
        }
    }
}

/// A task line.
#[derive(PartialEq, Eq, Debug)]
pub struct TaskLine {
    /// The task.
    pub id: u64,
    /// Its state.
    pub state: TaskState,
    /// Its team.
    pub team: Option<String>,
    /// Its title.
    pub title: String,
}

/// A task line in specifications.
pub struct ShownTask {
    /// The task.
    pub id: u64,
    /// Its state.
    pub state: ShownState,
    /// Its team.
    pub team: Option<Seq<char>>,
    /// Its title.
    pub title: Seq<char>,
}

impl View for TaskLine {
    type V = ShownTask;

    open spec fn view(&self) -> ShownTask {
        ShownTask {
            id: self.id,
            state: self.state@,
            team: opt_text(self.team),
            title: self.title@,
        }
    }
}

/// What a list of task lines holds.
pub open spec fn task_views(v: Seq<TaskLine>) -> Seq<ShownTask> {
    Seq::new(v.len(), |i: int| v[i]@)
}

/// A state read.
pub open spec fn state_of(s: Seq<char>) -> Option<ShownState> {
    if s == "Open"@ {
        Some(ShownState::Open)
    } else {
        match after_prefix(s, "Claimed by "@) {
            Some(by) => Some(ShownState::Claimed { by }),
            None => if s == "Done"@ {
                Some(ShownState::Done)
            } else if s == "Cancelled"@ {
                Some(ShownState::Cancelled)
            } else {
                None
            },
        }
    }
}

fn read_state(s: &[char]) -> (r: Option<TaskState>)
    ensures
        match r {
            Some(t) => state_of(s@) == Some(t@),
            None => state_of(s@) is None,
        },
{
    if spells(s, "Open") {
        return Some(TaskState::Open);
    }
    match strip_prefix(s, "Claimed by ") {
        Some(by) => Some(TaskState::Claimed { by: text_of(by) }),
        None => if spells(s, "Done") {
            Some(TaskState::Done)
        } else if spells(s, "Cancelled") {
            Some(TaskState::Cancelled)
        } else {
            None
        },
    }
}

/// A number, then a state in brackets, and what follows.
pub open spec fn numbered_state(s: Seq<char>) -> Option<(u64, ShownState, Seq<char>)> {
    match split_once(s, " "@) {
        Some((id, rest)) => match (whole(id), after_prefix(trim_start(rest), "["@)) {
            (Some(id), Some(inner)) => match split_once(inner, "]"@) {
                Some((state, tail)) => match state_of(state) {
                    Some(state) => Some((id, state, tail)),
                    None => None,
                },
                None => None,
            },
            _ => None,
        },
        None => None,
    }
}

/// A team tag, then a title in quotes.
pub open spec fn team_and_title(s: Seq<char>) -> Option<(Option<Seq<char>>, Seq<char>)> {
    match after_prefix(trim_start(s), "team:"@) {
        Some(tagged) => match split_space(tagged) {
            Some((t, rest)) => match between(rest) {
                Some(title) => Some((tag(t), title)),
                None => None,
            },
            None => None,
        },
        None => None,
    }
}

/// What a task line shows, behind `- task `.
pub open spec fn task_of(s: Seq<char>) -> Option<ShownTask> {
    match numbered_state(s) {
        Some((id, state, rest)) => match team_and_title(rest) {
            Some((team, title)) => Some(ShownTask { id, state, team, title }),
            None => None,
        },
        None => None,
    }
}

/// Reads a task line, behind `- task `.
pub fn parse_task_line(s: &[char]) -> (r: Option<TaskLine>)
    ensures
        match r {
            Some(t) => task_of(s@) == Some(t@),
            None => task_of(s@) is None,
        },
{
    let (id_text, rest) = match split_first(s, " ") {
        Some(p) => p,
        None => {
            return None;
        },
    };
    let id: u64 = match read_whole(id_text) {
        Some(n) => n,
        None => {
            return None;
        },
    };
    let inner = match strip_prefix(trimmed_start(rest), "[") {
        Some(p) => p,
        None => {
            return None;
        },
    };
    let (state_text, tail) = match split_first(inner, "]") {
        Some(p) => p,
        None => {
            return None;
        },
    };
    let state = match read_state(state_text) {
        Some(p) => p,
        None => {
            return None;
        },
    };
    let tagged = match strip_prefix(trimmed_start(tail), "team:") {
        Some(p) => p,
        None => {
            return None;
        },
    };
    let (tag_text, behind) = match split_first_space(tagged) {
        Some(p) => p,
        None => {
            return None;
        },
    };
    let title = match between_quotes(behind) {
        Some(p) => p,
        None => {
            return None;
        },
    };
    Some(TaskLine { id, state, team: read_tag(tag_text), title: text_of(title) })
}

// ---------------------------------------------------------------------------
// The board.
// ---------------------------------------------------------------------------

/// The board section.
#[derive(PartialEq, Eq, Debug)]
pub struct BoardDigest {
    /// The tasks.
    pub tasks: Vec<TaskLine>,
    /// How many team agents are working, idle and asleep.
    pub run_health_agents: Option<(u32, u32, u32)>,
}

/// The board section in specifications.
pub struct ShownBoard {
    /// The tasks.
    pub tasks: Seq<ShownTask>,
    /// How many team agents are working, idle and asleep.
    pub agents: Option<(u32, u32, u32)>,
}

impl View for BoardDigest {
    type V = ShownBoard;

    open spec fn view(&self) -> ShownBoard {
        ShownBoard { tasks: task_views(self.tasks@), agents: self.run_health_agents }
    }
}

impl Default for BoardDigest {
    /// A board without tasks.
    fn default() -> (b: BoardDigest)
        ensures
            b@.tasks == Seq::<ShownTask>::empty(),
            b@.agents is None,
    {
        let b = BoardDigest { tasks: Vec::new(), run_health_agents: None };
        assert(b@.tasks =~= Seq::<ShownTask>::empty());
        b
    }
}

/// A text that lies before one final character, read as a number.
pub open spec fn marked(s: Option<Seq<char>>, mark: char) -> Option<u32> {
    match s {
        Some(s) => match before_last(s, mark) {
            Some(d) => small(d),
            None => None,
        },
        None => None,
    }
}

fn read_marked(s: Option<&[char]>, mark: char) -> (r: Option<u32>)
    ensures
        r == marked(
            match s {
                Some(s) => Some(s@),
                None => None,
            },
            mark,
        ),
{
    match s {
        Some(s) => match strip_last(s, mark) {
            Some(d) => read_small(d),
            None => None,
        },
        None => None,
    }
}

/// The counts of team agents in a run-health line, as in `agents 1W/2I/0S`.
pub open spec fn agents_of(s: Seq<char>) -> Option<(u32, u32, u32)> {
    match piece(s, "agents "@, 1) {
        Some(after) => {
            let ws = words(after, Separator::Space);
            if ws.len() == 0 {
                None
            } else {
                match (
                    marked(piece(ws[0], "/"@, 0), 'W'),
                    marked(piece(ws[0], "/"@, 1), 'I'),
                    marked(piece(ws[0], "/"@, 2), 'S'),
                ) {
                    (Some(w), Some(i), Some(s)) => Some((w, i, s)),
                    _ => None,
                }
            }
        },
        None => None,
    }
}

fn parse_run_health_agents(s: &[char]) -> (r: Option<(u32, u32, u32)>)
    ensures
        r == agents_of(s@),
{
    let after = match nth_piece(s, "agents ", 1) {
        Some(p) => p,
        None => {
            return None;
        },
    };
    let ws = split_words(after, Separator::Space);
    assert(ws@.len() == texts(ws@).len());
    if ws.len() == 0 {
        return None;
    }
    assert(texts(ws@)[0] == ws@[0]@);
    let clause = chars_of(ws[0].as_str());
    let working = read_marked(nth_piece(clause.as_slice(), "/", 0), 'W');
    let idle = read_marked(nth_piece(clause.as_slice(), "/", 1), 'I');
    let asleep = read_marked(nth_piece(clause.as_slice(), "/", 2), 'S');
    match (working, idle, asleep) {
        (Some(w), Some(i), Some(s)) => Some((w, i, s)),
        _ => None,
    }
}

/// The board section read: task lines in order, and the last run-health line.
pub open spec fn board_of(ls: Seq<Seq<char>>) -> ShownBoard
    decreases ls.len(),
{
    if ls.len() == 0 {
        ShownBoard { tasks: Seq::empty(), agents: None }
    } else {
        let b = board_of(ls.drop_last());
        match after_prefix(ls.last(), "- task "@) {
            Some(rest) => match task_of(rest) {
                Some(t) => ShownBoard { tasks: b.tasks.push(t), ..b },
                None => b,
            },
            None => match after_prefix(ls.last(), "run-health:"@) {
                Some(rest) => ShownBoard { agents: agents_of(rest), ..b },
                None => b,
            },
        }
    }
}

pub(crate) fn parse_board(ls: &Vec<String>) -> (b: BoardDigest)
    ensures
        b@ == board_of(texts(ls@)),
{
    let mut tasks: Vec<TaskLine> = Vec::new();
    let mut agents: Option<(u32, u32, u32)> = None;
    let ghost all = texts(ls@);
    let mut i: usize = 0;
    assert(all.take(0) =~= Seq::<Seq<char>>::empty());
    assert(task_views(tasks@) =~= Seq::<ShownTask>::empty());
    while i < ls.len()
        invariant
            0 <= i <= ls.len(),
            all == texts(ls@),
            (ShownBoard { tasks: task_views(tasks@), agents }) == board_of(all.take(i as int)),
        decreases ls.len() - i,
    {
        assert(all.take(i + 1).drop_last() =~= all.take(i as int));
        assert(all.take(i + 1).last() == ls@[i as int]@);
        let line = chars_of(ls[i].as_str());
        match strip_prefix(line.as_slice(), "- task ") {
            Some(rest) => {
                if let Some(t) = parse_task_line(rest) {
                    let ghost before = task_views(tasks@);
                    tasks.push(t);
                    assert(task_views(tasks@) =~= before.push(t@));
                }
            },
            None => {
                if let Some(rest) = strip_prefix(line.as_slice(), "run-health:") {
                    agents = parse_run_health_agents(rest);
                }
            },
        }
        i = i + 1;
    }
    assert(all.take(i as int) =~= all);
    BoardDigest { tasks, run_health_agents: agents }
}

/// A task is open or claimed.
pub open spec fn live(t: ShownTask) -> bool {
    t.state is Open || t.state is Claimed
}

/// The first open task of least number among the first `n`.
pub open spec fn lowest_of(tasks: Seq<ShownTask>, n: int) -> Option<int>
    decreases n,
{
    if n <= 0 {
        None
    } else {
        let best = lowest_of(tasks, n - 1);
        if tasks[n - 1].state is Open && (best is None || tasks[n - 1].id < tasks[best->0].id) {
            Some(n - 1)
        } else {
            best
        }
    }
}

/// The titles of the tasks that are done.
pub open spec fn titles_done(tasks: Seq<ShownTask>) -> Seq<Seq<char>>
    decreases tasks.len(),
{
    if tasks.len() == 0 {
        Seq::empty()
    } else {
        let rest = titles_done(tasks.drop_last());
        if tasks.last().state is Done {
            rest.push(tasks.last().title)
        } else {
            rest
        }
    }
}

/// Who claims tasks, in the order of the tasks.
pub open spec fn claimed_by(tasks: Seq<ShownTask>) -> Seq<Seq<char>>
    decreases tasks.len(),
{
    if tasks.len() == 0 {
        Seq::empty()
    } else {
        let rest = claimed_by(tasks.drop_last());
        match tasks.last().state {
            ShownState::Claimed { by } => rest.push(by),
            _ => rest,
        }
    }
}

/// How many tasks have a tag.
pub open spec fn tag_count(tasks: Seq<ShownTask>, t: Seq<char>) -> nat
    decreases tasks.len(),
{
    if tasks.len() == 0 {
        0
    } else {
        tag_count(tasks.drop_last(), t) + if tasks.last().team == Some(t) {
            1nat
        } else {
            0nat
        }
    }
}

/// A tag leads another: more tasks have it, or as many and it comes later in the order of texts.
pub open spec fn leads(tasks: Seq<ShownTask>, a: Seq<char>, b: Seq<char>) -> bool {
    tag_count(tasks, a) > tag_count(tasks, b) || (tag_count(tasks, a) == tag_count(tasks, b)
        && text_less(b, a))
}

/// The leading one among the tags of the first `n` tasks.
pub open spec fn dominant_of(tasks: Seq<ShownTask>, n: int) -> Option<Seq<char>>
    decreases n,
{
    if n <= 0 {
        None
    } else {
        match (dominant_of(tasks, n - 1), tasks[n - 1].team) {
            (best, None) => best,
            (None, Some(t)) => Some(t),
            (Some(b), Some(t)) => if leads(tasks, t, b) {
                Some(t)
            } else {
                Some(b)
            },
        }
    }
}

impl ShownBoard {
    /// The open task of least number.
    pub open spec fn lowest(self) -> Option<ShownTask> {
        match lowest_of(self.tasks, self.tasks.len() as int) {
            Some(i) => Some(self.tasks[i]),
            None => None,
        }
    }

    /// The tag that most tasks have; of several, the last in the order of texts.
    pub open spec fn dominant(self) -> Option<Seq<char>> {
        dominant_of(self.tasks, self.tasks.len() as int)
    }

    /// No task is open or claimed.
    pub open spec fn terminal(self) -> bool {
        forall|i: int| 0 <= i < self.tasks.len() ==> !live(#[trigger] self.tasks[i])
    }
}

/// What a list of borrowed task lines holds.
pub open spec fn borrowed_views(v: Seq<&TaskLine>) -> Seq<ShownTask> {
    Seq::new(v.len(), |i: int| v[i]@)
}

/// The tasks that are open or claimed.
pub open spec fn live_tasks(tasks: Seq<ShownTask>) -> Seq<ShownTask>
    decreases tasks.len(),
{
    if tasks.len() == 0 {
        Seq::empty()
    } else {
        let rest = live_tasks(tasks.drop_last());
        if live(tasks.last()) {
            rest.push(tasks.last())
        } else {
            rest
        }
    }
}

fn count_tag(tasks: &Vec<TaskLine>, t: &str) -> (n: usize)
    ensures
        n == tag_count(task_views(tasks@), t@),
{
    let mut n: usize = 0;
    let mut i: usize = 0;
    let ghost all = task_views(tasks@);
    assert(all.take(0) =~= Seq::<ShownTask>::empty());
    while i < tasks.len()
        invariant
            0 <= i <= tasks.len(),
            all == task_views(tasks@),
            n == tag_count(all.take(i as int), t@),
            n <= i,
        decreases tasks.len() - i,
    {
        assert(all.take(i + 1).drop_last() =~= all.take(i as int));
        assert(all.take(i + 1).last() == tasks@[i as int]@);
        if let Some(team) = &tasks[i].team {
            if same(team.as_str(), t) {
                n = n + 1;
            }
        }
        i = i + 1;
    }
    assert(all.take(i as int) =~= all);
    n
}

impl BoardDigest {
    /// How many tasks the board shows.
    pub fn count(&self) -> (n: usize)
        ensures
            n == self@.tasks.len(),
    {
        self.tasks.len()
    }

    /// The tasks that are open or claimed.
    pub fn non_terminal(&self) -> (r: Vec<&TaskLine>)
        ensures
            borrowed_views(r@) == live_tasks(self@.tasks),
    {
        let mut r: Vec<&TaskLine> = Vec::new();
        let mut i: usize = 0;
        let ghost all = self@.tasks;
        assert(all.take(0) =~= Seq::<ShownTask>::empty());
        assert(borrowed_views(r@) =~= Seq::<ShownTask>::empty());
        while i < self.tasks.len()
            invariant
                0 <= i <= self.tasks.len(),
                all == self@.tasks,
                borrowed_views(r@) == live_tasks(all.take(i as int)),
            decreases self.tasks.len() - i,
        {
            assert(all.take(i + 1).drop_last() =~= all.take(i as int));
            assert(all.take(i + 1).last() == self.tasks@[i as int]@);
            let keep = match &self.tasks[i].state {
                TaskState::Open => true,
                TaskState::Claimed { .. } => true,
                _ => false,
            };
            if keep {
                let ghost before = borrowed_views(r@);
                r.push(&self.tasks[i]);
                assert(borrowed_views(r@) =~= before.push(self.tasks@[i as int]@));
            }
            i = i + 1;
        }
        assert(all.take(i as int) =~= all);
        r
    }

    /// Whether no task is open or claimed.
    pub fn all_terminal(&self) -> (b: bool)
        ensures
            b == self@.terminal(),
    {
        let mut i: usize = 0;
        while i < self.tasks.len()
            invariant
                0 <= i <= self.tasks.len(),
                forall|k: int| 0 <= k < i ==> !live(#[trigger] self@.tasks[k]),
            decreases self.tasks.len() - i,
        {
            assert(self@.tasks[i as int] == self.tasks@[i as int]@);
            match &self.tasks[i].state {
                TaskState::Open => {
                    return false;
                },
                TaskState::Claimed { .. } => {
                    return false;
                },
                _ => {},
            }
            i = i + 1;
        }
        true
    }

    /// The open task of least number.
    pub fn lowest_open(&self) -> (r: Option<&TaskLine>)
        ensures
            match r {
                Some(t) => self@.lowest() == Some(t@),
                None => self@.lowest() is None,
            },
    {
        let mut best: Option<usize> = None;
        let mut i: usize = 0;
        let ghost all = self@.tasks;
        while i < self.tasks.len()
            invariant
                0 <= i <= self.tasks.len(),
                all == self@.tasks,
                match best {
                    Some(b) => lowest_of(all, i as int) == Some(b as int) && b < i,
                    None => lowest_of(all, i as int) is None,
                },
            decreases self.tasks.len() - i,
        {
            assert(all[i as int] == self.tasks@[i as int]@);
            let open = matches!(self.tasks[i].state, TaskState::Open);
            if open {
                match best {
                    Some(b) => {
                        assert(all[b as int] == self.tasks@[b as int]@);
                        if self.tasks[i].id < self.tasks[b].id {
                            best = Some(i);
                        }
                    },
                    None => {
                        best = Some(i);
                    },
                }
            }
            i = i + 1;
        }
        match best {
            Some(b) => Some(&self.tasks[b]),
            None => None,
        }
    }

    /// The titles of the tasks that are done.
    pub fn done_titles(&self) -> (r: Vec<String>)
        ensures
            texts(r@) == titles_done(self@.tasks),
    {
        let mut r = no_lines();
        let mut i: usize = 0;
        let ghost all = self@.tasks;
        assert(all.take(0) =~= Seq::<ShownTask>::empty());
        while i < self.tasks.len()
            invariant
                0 <= i <= self.tasks.len(),
                all == self@.tasks,
                texts(r@) == titles_done(all.take(i as int)),
            decreases self.tasks.len() - i,
        {
            assert(all.take(i + 1).drop_last() =~= all.take(i as int));
            assert(all.take(i + 1).last() == self.tasks@[i as int]@);
            if matches!(self.tasks[i].state, TaskState::Done) {
                push_line(&mut r, self.tasks[i].title.clone());
            }
            i = i + 1;
        }
        assert(all.take(i as int) =~= all);
        r
    }

    /// Who claims tasks.
    pub fn claimants(&self) -> (r: Vec<String>)
        ensures
            texts(r@) == claimed_by(self@.tasks),
    {
        let mut r = no_lines();
        let mut i: usize = 0;
        let ghost all = self@.tasks;
        assert(all.take(0) =~= Seq::<ShownTask>::empty());
        while i < self.tasks.len()
            invariant
                0 <= i <= self.tasks.len(),
                all == self@.tasks,
                texts(r@) == claimed_by(all.take(i as int)),
            decreases self.tasks.len() - i,
        {
            assert(all.take(i + 1).drop_last() =~= all.take(i as int));
            assert(all.take(i + 1).last() == self.tasks@[i as int]@);
            if let TaskState::Claimed { by } = &self.tasks[i].state {
                push_line(&mut r, by.clone());
            }
            i = i + 1;
        }
        assert(all.take(i as int) =~= all);
        r
    }

    /// The tag that most tasks have; of several, the last in the order of texts.
    pub fn dominant_team(&self) -> (r: Option<String>)
        ensures
            opt_text(r) == self@.dominant(),
    {
        let mut best: Option<String> = None;
        let mut i: usize = 0;
        let ghost all = self@.tasks;
        while i < self.tasks.len()
            invariant
                0 <= i <= self.tasks.len(),
                all == self@.tasks,
                opt_text(best) == dominant_of(all, i as int),
            decreases self.tasks.len() - i,
        {
            assert(all[i as int] == self.tasks@[i as int]@);
            if let Some(t) = &self.tasks[i].team {
                let lead = match &best {
                    Some(b) => {
                        let ct: usize = count_tag(&self.tasks, t.as_str());
                        let cb: usize = count_tag(&self.tasks, b.as_str());
                        ct > cb || (ct == cb && precedes(
                            chars_of(b.as_str()).as_slice(),
                            chars_of(t.as_str()).as_slice(),
                        ))
                    },
                    None => true,
                };
                if lead {
                    best = Some(t.clone());
                }
            }
            i = i + 1;
        }
        best
    }
}

/// The dominant tag is the tag of a task, and no tag of a task leads it.
pub proof fn dominant_leads(tasks: Seq<ShownTask>, n: int)
    requires
        0 <= n <= tasks.len(),
    ensures
        match dominant_of(tasks, n) {
            Some(d) => {
                &&& exists|i: int| 0 <= i < n && #[trigger] tasks[i].team == Some(d)
                &&& forall|i: int|
                    0 <= i < n && (#[trigger] tasks[i]).team is Some ==> !leads(
                        tasks,
                        tasks[i].team->0,
                        d,
                    )
            },
            None => forall|i: int| 0 <= i < n ==> (#[trigger] tasks[i]).team is None,
        },
    decreases n,
{
    if n > 0 {
        dominant_leads(tasks, n - 1);
        match (dominant_of(tasks, n - 1), tasks[n - 1].team) {
            (Some(b), Some(t)) => {
                lemma_less_irreflexive(t);
                if leads(tasks, t, b) {
                    assert(tasks[n - 1].team == Some(t));
                    assert forall|i: int|
                        0 <= i < n && (#[trigger] tasks[i]).team is Some implies !leads(
                        tasks,
                        tasks[i].team->0,
                        t,
                    ) by {
                        if i < n - 1 {
                            let u = tasks[i].team->0;
                            if leads(tasks, u, t) {
                                lemma_less_transitive(b, t, u);
                                assert(leads(tasks, u, b));
                            }
                        }
                    }
                } else {
                    let i = choose|i: int| 0 <= i < n - 1 && #[trigger] tasks[i].team == Some(b);
                    assert(0 <= i < n && tasks[i].team == Some(b));
                }
            },
            (None, Some(t)) => {
                lemma_less_irreflexive(t);
                assert(tasks[n - 1].team == Some(t));
            },
            (Some(b), None) => {
                let i = choose|i: int| 0 <= i < n - 1 && #[trigger] tasks[i].team == Some(b);
                assert(0 <= i < n && tasks[i].team == Some(b));
            },
            (None, None) => {},
        }
    }
}

// ---------------------------------------------------------------------------
// The claimed task, recent activity and fresh messages.
// ---------------------------------------------------------------------------

/// The task that the agent has claimed.
#[derive(PartialEq, Eq, Debug)]
pub struct ClaimedTask {
    /// The task.
    pub id: u64,
    /// Its title.
    pub title: String,
    /// Its team.
    pub team: Option<String>,
}

/// The task that the agent has claimed, in specifications.
pub struct ShownClaim {
    /// The task.
    pub id: u64,
    /// Its title.
    pub title: Seq<char>,
    /// Its team.
    pub team: Option<Seq<char>>,
}

impl View for ClaimedTask {
    type V = ShownClaim;

    open spec fn view(&self) -> ShownClaim {
        ShownClaim { id: self.id, title: self.title@, team: opt_text(self.team) }
    }
}

/// The team that a claimed-task line names.
pub open spec fn claim_team(rest: Seq<char>) -> Option<Seq<char>> {
    match after_last(rest, "(team "@) {
        Some(tail) => match before_last(tail, ')') {
            Some(t) => tag(t),
            None => None,
        },
        None => None,
    }
}

/// What a claimed-task line shows.
pub open spec fn claim_of(line: Seq<char>) -> Option<ShownClaim> {
    match after_prefix(line, "task "@) {
        Some(s) => match split_once(s, " "@) {
            Some((id, rest)) => match (whole(id), between(rest)) {
                (Some(id), Some(title)) => Some(ShownClaim { id, title, team: claim_team(rest) }),
                _ => None,
            },
            None => None,
        },
        None => None,
    }
}

/// The claimed-task section read: its first line with content.
pub open spec fn claimed_of(ls: Seq<Seq<char>>) -> Option<ShownClaim> {
    match content_at(ls, 0) {
        Some(i) => claim_of(ls[i]),
        None => None,
    }
}

pub(crate) fn parse_claimed(ls: &Vec<String>) -> (r: Option<ClaimedTask>)
    ensures
        match r {
            Some(c) => claimed_of(texts(ls@)) == Some(c@),
            None => claimed_of(texts(ls@)) is None,
        },
{
    let i: usize = match find_content(ls) {
        Some(i) => i,
        None => {
            return None;
        },
    };
    assert(texts(ls@)[i as int] == ls@[i as int]@);
    let line = chars_of(ls[i].as_str());
    let s = match strip_prefix(line.as_slice(), "task ") {
        Some(p) => p,
        None => {
            return None;
        },
    };
    let (id_text, rest) = match split_first(s, " ") {
        Some(p) => p,
        None => {
            return None;
        },
    };
    let id: u64 = match read_whole(id_text) {
        Some(n) => n,
        None => {
            return None;
        },
    };
    let title = match between_quotes(rest) {
        Some(p) => p,
        None => {
            return None;
        },
    };
    let team = match split_last(rest, "(team ") {
        Some(tail) => match strip_last(tail, ')') {
            Some(t) => read_tag(t),
            None => None,
        },
        None => None,
    };
    Some(ClaimedTask { id, title: text_of(title), team })
}

/// The recent-activity section.
#[derive(Clone, Copy, PartialEq, Eq, Structural, Debug)]
pub struct RecentActivity {
    /// Older activity was dropped.
    pub degraded: bool,
    /// How many lines show work: notes, messages, searches.
    pub work_actions: usize,
}

impl Default for RecentActivity {
    /// No activity.
    fn default() -> (r: RecentActivity)
        ensures
            r == (RecentActivity { degraded: false, work_actions: 0 }),
    {
        RecentActivity { degraded: false, work_actions: 0 }
    }
}

/// The first position from `i` on at which a verb ends: at a brace or white space.
pub open spec fn verb_end(s: Seq<char>, i: int) -> int
    decreases s.len() - i,
{
    if i < 0 || i >= s.len() {
        s.len() as int
    } else if s[i] == '{' || is_space(s[i]) {
        i
    } else {
        verb_end(s, i + 1)
    }
}

/// A verb that counts as work.
pub open spec fn is_work(verb: Seq<char>) -> bool {
    verb == "write_knowledge"@ || verb == "post_message"@ || verb == "search_knowledge"@
}

/// An activity line shows work.
pub open spec fn shows_work(line: Seq<char>) -> bool {
    match after_prefix(line, "- [turn "@) {
        Some(rest) => match split_once(rest, "] "@) {
            Some((_, action)) => is_work(action.take(verb_end(action, 0))),
            None => false,
        },
        None => false,
    }
}

/// How many lines show work.
pub open spec fn work_count(ls: Seq<Seq<char>>) -> nat
    decreases ls.len(),
{
    if ls.len() == 0 {
        0
    } else {
        work_count(ls.drop_last()) + if shows_work(ls.last()) {
            1nat
        } else {
            0nat
        }
    }
}

/// The first line with content marks a degraded section.
pub open spec fn marked_degraded(ls: Seq<Seq<char>>) -> bool {
    match content_at(ls, 0) {
        Some(i) => after_prefix(ls[i], "(degraded"@) is Some,
        None => false,
    }
}

/// The recent-activity section read.
pub open spec fn recent_of(ls: Seq<Seq<char>>) -> RecentActivity {
    RecentActivity { degraded: marked_degraded(ls), work_actions: work_count(ls) as usize }
}

fn find_verb_end(s: &[char]) -> (r: usize)
    ensures
        r == verb_end(s@, 0),
        r <= s.len(),
{
    let mut i: usize = 0;
    while i < s.len()
        invariant
            0 <= i <= s.len(),
            verb_end(s@, 0) == verb_end(s@, i as int),
        decreases s.len() - i,
    {
        if s[i] == '{' || space(s[i]) {
            return i;
        }
        i = i + 1;
    }
    i
}

fn line_shows_work(line: &str) -> (b: bool)
    ensures
        b == shows_work(line@),
{
    let v = chars_of(line);
    let rest = match strip_prefix(v.as_slice(), "- [turn ") {
        Some(p) => p,
        None => {
            return false;
        },
    };
    match split_first(rest, "] ") {
        Some((_, action)) => {
            let end: usize = find_verb_end(action);
            let verb = vstd::slice::slice_subrange(action, 0, end);
            assert(verb@ =~= action@.take(end as int));
            spells(verb, "write_knowledge") || spells(verb, "post_message") || spells(
                verb,
                "search_knowledge",
            )
        },
        None => false,
    }
}

pub(crate) fn parse_recent(ls: &Vec<String>) -> (r: RecentActivity)
    ensures
        r == recent_of(texts(ls@)),
{
    let degraded = match find_content(ls) {
        Some(i) => {
            assert(texts(ls@)[i as int] == ls@[i as int]@);
            strip_prefix(chars_of(ls[i].as_str()).as_slice(), "(degraded").is_some()
        },
        None => false,
    };
    let mut n: usize = 0;
    let mut i: usize = 0;
    let ghost all = texts(ls@);
    assert(all.take(0) =~= Seq::<Seq<char>>::empty());
    while i < ls.len()
        invariant
            0 <= i <= ls.len(),
            all == texts(ls@),
            n == work_count(all.take(i as int)),
            n <= i,
        decreases ls.len() - i,
    {
        assert(all.take(i + 1).drop_last() =~= all.take(i as int));
        assert(all.take(i + 1).last() == ls@[i as int]@);
        if line_shows_work(ls[i].as_str()) {
            n = n + 1;
        }
        i = i + 1;
    }
    assert(all.take(i as int) =~= all);
    RecentActivity { degraded, work_actions: n }
}

/// A fresh message.
#[derive(PartialEq, Eq, Debug)]
pub struct FreshMessage {
    /// The message.
    pub id: u64,
    /// Its sender.
    pub from: String,
    /// How it was addressed.
    pub kind: String,
    /// Its body.
    pub body: String,
}

/// A fresh message in specifications.
pub struct ShownMessage {
    /// The message.
    pub id: u64,
    /// Its sender.
    pub from: Seq<char>,
    /// How it was addressed.
    pub kind: Seq<char>,
    /// Its body.
    pub body: Seq<char>,
}

impl View for FreshMessage {
    type V = ShownMessage;

    open spec fn view(&self) -> ShownMessage {
        ShownMessage { id: self.id, from: self.from@, kind: self.kind@, body: self.body@ }
    }
}

/// What a list of fresh messages holds.
pub open spec fn fresh_views(v: Seq<FreshMessage>) -> Seq<ShownMessage> {
    Seq::new(v.len(), |i: int| v[i]@)
}

/// A sender, an address kind and a body.
pub open spec fn addressed(s: Seq<char>) -> Option<(Seq<char>, Seq<char>, Seq<char>)> {
    match split_once(s, " ("@) {
        Some((from, rest)) => match split_once(rest, "):"@) {
            Some((kind, rest)) => match between(rest) {
                Some(body) => Some((from, kind, body)),
                None => None,
            },
            None => None,
        },
        None => None,
    }
}

/// What a message line shows.
pub open spec fn message_of(line: Seq<char>) -> Option<ShownMessage> {
    match after_prefix(line, "- msg "@) {
        Some(s) => match split_once(s, " from "@) {
            Some((id, rest)) => match (whole(id), addressed(rest)) {
                (Some(id), Some((from, kind, body))) => Some(ShownMessage { id, from, kind, body }),
                _ => None,
            },
            None => None,
        },
        None => None,
    }
}

/// The fresh-messages section read.
pub open spec fn fresh_of(ls: Seq<Seq<char>>) -> Seq<ShownMessage>
    decreases ls.len(),
{
    if ls.len() == 0 {
        Seq::empty()
    } else {
        let rest = fresh_of(ls.drop_last());
        match message_of(ls.last()) {
            Some(m) => rest.push(m),
            None => rest,
        }
    }
}

fn parse_message_line(line: &str) -> (r: Option<FreshMessage>)
    ensures
        match r {
            Some(m) => message_of(line@) == Some(m@),
            None => message_of(line@) is None,
        },
{
    let v = chars_of(line);
    let s = match strip_prefix(v.as_slice(), "- msg ") {
        Some(p) => p,
        None => {
            return None;
        },
    };
    let (id_text, rest) = match split_first(s, " from ") {
        Some(p) => p,
        None => {
            return None;
        },
    };
    let id: u64 = match read_whole(id_text) {
        Some(n) => n,
        None => {
            return None;
        },
    };
    let (from, rest) = match split_first(rest, " (") {
        Some(p) => p,
        None => {
            return None;
        },
    };
    let (kind, rest) = match split_first(rest, "):") {
        Some(p) => p,
        None => {
            return None;
        },
    };
    let body = match between_quotes(rest) {
        Some(p) => p,
        None => {
            return None;
        },
    };
    Some(FreshMessage { id, from: text_of(from), kind: text_of(kind), body: text_of(body) })
}

pub(crate) fn parse_fresh(ls: &Vec<String>) -> (r: Vec<FreshMessage>)
    ensures
        fresh_views(r@) == fresh_of(texts(ls@)),
{
    let mut r: Vec<FreshMessage> = Vec::new();
    let mut i: usize = 0;
    let ghost all = texts(ls@);
    assert(all.take(0) =~= Seq::<Seq<char>>::empty());
    assert(fresh_views(r@) =~= Seq::<ShownMessage>::empty());
    while i < ls.len()
        invariant
            0 <= i <= ls.len(),
            all == texts(ls@),
            fresh_views(r@) == fresh_of(all.take(i as int)),
        decreases ls.len() - i,
    {
        assert(all.take(i + 1).drop_last() =~= all.take(i as int));
        assert(all.take(i + 1).last() == ls@[i as int]@);
        if let Some(m) = parse_message_line(ls[i].as_str()) {
            let ghost before = fresh_views(r@);
            r.push(m);
            assert(fresh_views(r@) =~= before.push(m@));
        }
        i = i + 1;
    }
    assert(all.take(i as int) =~= all);
    r
}

// ---------------------------------------------------------------------------
// Directives.
// ---------------------------------------------------------------------------

/// The position from `i` on of the bracket that closes the last of `depth` brackets that are open.
/// Brackets between double quotes do not count.
pub open spec fn closing(s: Seq<char>, i: int, depth: nat, quoted: bool) -> Option<int>
    decreases s.len() - i,
{
    if i < 0 || i >= s.len() {
        None
    } else if s[i] == '"' {
        closing(s, i + 1, depth, !quoted)
    } else if quoted {
        closing(s, i + 1, depth, quoted)
    } else if s[i] == '{' || s[i] == '[' {
        closing(s, i + 1, depth + 1, quoted)
    } else if s[i] == '}' || s[i] == ']' {
        if depth <= 1 {
            Some(i)
        } else {
            closing(s, i + 1, (depth - 1) as nat, quoted)
        }
    } else {
        closing(s, i + 1, depth, quoted)
    }
}

/// The parts before and after the bracket that closes an open one.
pub open spec fn braced(s: Seq<char>) -> Option<(Seq<char>, Seq<char>)> {
    match closing(s, 0, 1, false) {
        Some(i) => Some((s.take(i), s.skip(i + 1))),
        None => None,
    }
}

fn split_braced(s: &[char]) -> (r: Option<(&[char], &[char])>)
    ensures
        match r {
            Some((a, b)) => braced(s@) == Some((a@, b@)),
            None => braced(s@) is None,
        },
{
    let end: usize = s.len();
    let mut depth: u128 = 1;
    let mut quoted = false;
    let mut i: usize = 0;
    while i < end
        invariant
            0 <= i <= end,
            end == s.len(),
            1 <= depth <= i + 1,
            closing(s@, 0, 1, false) == closing(s@, i as int, depth as nat, quoted),
        decreases end - i,
    {
        let c = s[i];
        if c == '"' {
            quoted = !quoted;
        } else if quoted {
        } else if c == '{' || c == '[' {
            depth = depth + 1;
        } else if c == '}' || c == ']' {
            if depth <= 1 {
                let a = vstd::slice::slice_subrange(s, 0, i);
                let b = vstd::slice::slice_subrange(s, i + 1, end);
                assert(a@ =~= s@.take(i as int));
                assert(b@ =~= s@.skip(i + 1));
                return Some((a, b));
            }
            depth = depth - 1;
        }
        i = i + 1;
    }
    None
}

/// The position from `i` on of a comma outside brackets and quotes, or the end.
pub open spec fn comma(s: Seq<char>, i: int, depth: nat, quoted: bool) -> int
    decreases s.len() - i,
{
    if i < 0 || i >= s.len() {
        s.len() as int
    } else if s[i] == '"' {
        comma(s, i + 1, depth, !quoted)
    } else if quoted {
        comma(s, i + 1, depth, quoted)
    } else if s[i] == '{' || s[i] == '[' {
        comma(s, i + 1, depth + 1, quoted)
    } else if s[i] == '}' || s[i] == ']' {
        comma(
            s,
            i + 1,
            if depth == 0 {
                0
            } else {
                (depth - 1) as nat
            },
            quoted,
        )
    } else if s[i] == ',' && depth == 0 {
        i
    } else {
        comma(s, i + 1, depth, quoted)
    }
}

fn find_comma(s: &[char]) -> (r: usize)
    ensures
        r == comma(s@, 0, 0, false),
        r <= s.len(),
{
    let end: usize = s.len();
    let mut depth: u128 = 0;
    let mut quoted = false;
    let mut i: usize = 0;
    while i < end
        invariant
            0 <= i <= end,
            end == s.len(),
            depth <= i,
            comma(s@, 0, 0, false) == comma(s@, i as int, depth as nat, quoted),
        decreases end - i,
    {
        let c = s[i];
        if c == '"' {
            quoted = !quoted;
        } else if quoted {
        } else if c == '{' || c == '[' {
            depth = depth + 1;
        } else if c == '}' || c == ']' {
            if depth > 0 {
                depth = depth - 1;
            }
        } else if c == ',' && depth == 0 {
            return i;
        }
        i = i + 1;
    }
    i
}

/// A value without the double quotes around it, if it has both.
pub open spec fn unquoted(v: Seq<char>) -> Seq<char> {
    match after_prefix(v, "\""@) {
        Some(t) => match before_last(t, '"') {
            Some(u) => u,
            None => v,
        },
        None => v,
    }
}

/// What a fragment `key:value` says.
pub open spec fn pair_of(fragment: Seq<char>) -> Option<(Seq<char>, Seq<char>)> {
    match split_once(trim(fragment), ":"@) {
        Some((key, value)) => Some((trim(key), unquoted(trim(value)))),
        None => None,
    }
}

/// The pairs of fragments between commas; what is no pair is passed over.
pub open spec fn pairs_of(s: Seq<char>) -> Seq<(Seq<char>, Seq<char>)>
    decreases s.len(),
{
    let end = comma(s, 0, 0, false);
    let first = match pair_of(s.take(end)) {
        Some(p) => seq![p],
        None => Seq::empty(),
    };
    if 0 <= end < s.len() {
        first + pairs_of(s.skip(end + 1))
    } else {
        first
    }
}

/// What a list of pairs holds.
pub open spec fn pair_views(v: Seq<(String, String)>) -> Seq<(Seq<char>, Seq<char>)> {
    Seq::new(v.len(), |i: int| (v[i].0@, v[i].1@))
}

fn push_pair(pairs: &mut Vec<(String, String)>, fragment: &[char])
    ensures
        pair_views(final(pairs)@) == pair_views(old(pairs)@) + match pair_of(fragment@) {
            Some(p) => seq![p],
            None => Seq::empty(),
        },
{
    let ghost before = pair_views(pairs@);
    match split_first(trimmed(fragment), ":") {
        Some((key, value)) => {
            let v = trimmed(value);
            let bare = match strip_prefix(v, "\"") {
                Some(t) => match strip_last(t, '"') {
                    Some(u) => u,
                    None => v,
                },
                None => v,
            };
            pairs.push((text_of(trimmed(key)), text_of(bare)));
            assert(pair_views(pairs@) =~= before + seq![pair_of(fragment@)->0]);
        },
        None => {
            assert(before + Seq::empty() =~= before);
        },
    }
}

/// The arguments of a directive.
#[derive(PartialEq, Eq, Debug)]
pub struct DirectiveArgs {
    /// Keys and values, in order.
    pub pairs: Vec<(String, String)>,
}

/// The value under a key.
pub open spec fn value_of(pairs: Seq<(Seq<char>, Seq<char>)>, key: Seq<char>, i: int) -> Option<
    Seq<char>,
>
    decreases pairs.len() - i,
{
    if i < 0 || i >= pairs.len() {
        None
    } else if pairs[i].0 == key {
        Some(pairs[i].1)
    } else {
        value_of(pairs, key, i + 1)
    }
}

/// The words of a list in brackets.
pub open spec fn list_words(v: Seq<char>) -> Option<Seq<Seq<char>>> {
    match after_prefix(v, "["@) {
        Some(t) => match before_last(t, ']') {
            Some(inner) => Some(words(inner, Separator::Space)),
            None => None,
        },
        None => None,
    }
}

impl View for DirectiveArgs {
    type V = Seq<(Seq<char>, Seq<char>)>;

    open spec fn view(&self) -> Seq<(Seq<char>, Seq<char>)> {
        pair_views(self.pairs@)
    }
}

impl Default for DirectiveArgs {
    /// No arguments.
    fn default() -> (a: DirectiveArgs)
        ensures
            a@ == Seq::<(Seq<char>, Seq<char>)>::empty(),
    {
        let a = DirectiveArgs { pairs: Vec::new() };
        assert(a@ =~= Seq::<(Seq<char>, Seq<char>)>::empty());
        a
    }
}

impl DirectiveArgs {
    /// The value under a key.
    pub fn get(&self, key: &str) -> (r: Option<&str>)
        ensures
            match r {
                Some(v) => value_of(self@, key@, 0) == Some(v@),
                None => value_of(self@, key@, 0) is None,
            },
    {
        let mut i: usize = 0;
        while i < self.pairs.len()
            invariant
                0 <= i <= self.pairs.len(),
                value_of(self@, key@, 0) == value_of(self@, key@, i as int),
            decreases self.pairs.len() - i,
        {
            assert(self@[i as int] == (self.pairs@[i as int].0@, self.pairs@[i as int].1@));
            if same(self.pairs[i].0.as_str(), key) {
                return Some(self.pairs[i].1.as_str());
            }
            i = i + 1;
        }
        None
    }

    /// The words of the list under a key.
    pub fn get_list(&self, key: &str) -> (r: Option<Vec<String>>)
        ensures
            match r {
                Some(v) => value_of(self@, key@, 0) is Some && list_words(
                    value_of(self@, key@, 0)->0,
                ) == Some(texts(v@)),
                None => value_of(self@, key@, 0) is None || list_words(
                    value_of(self@, key@, 0)->0,
                ) is None,
            },
    {
        match self.get(key) {
            Some(v) => {
                let s = chars_of(v);
                match strip_prefix(s.as_slice(), "[") {
                    Some(t) => match strip_last(t, ']') {
                        Some(inner) => Some(split_words(inner, Separator::Space)),
                        None => None,
                    },
                    None => None,
                }
            },
            None => None,
        }
    }
}

fn parse_args(s: &[char]) -> (a: DirectiveArgs)
    ensures
        a@ == pairs_of(s@),
{
    let mut pairs: Vec<(String, String)> = Vec::new();
    let mut rest: &[char] = s;
    let mut more = true;
    assert(pair_views(pairs@) + pairs_of(rest@) =~= pairs_of(s@));
    while more
        invariant
            more ==> pair_views(pairs@) + pairs_of(rest@) == pairs_of(s@),
            !more ==> pair_views(pairs@) == pairs_of(s@),
        decreases rest.len(), (if more { 1int } else { 0int }),
    {
        let end: usize = find_comma(rest);
        let len: usize = rest.len();
        let ghost before = pair_views(pairs@);
        let fragment = vstd::slice::slice_subrange(rest, 0, end);
        assert(fragment@ =~= rest@.take(end as int));
        push_pair(&mut pairs, fragment);
        if end < len {
            let tail = vstd::slice::slice_subrange(rest, end + 1, len);
            assert(tail@ =~= rest@.skip(end + 1));
            assert(pair_views(pairs@) + pairs_of(tail@) =~= before + pairs_of(rest@));
            rest = tail;
        } else {
            more = false;
        }
    }
    DirectiveArgs { pairs }
}

/// A directive line.
#[derive(PartialEq, Eq, Debug)]
pub struct DirectiveLine {
    /// The directive.
    pub id: u64,
    /// Its tier.
    pub tier: String,
    /// Its state.
    pub state: String,
    /// Its kind.
    pub kind: String,
    /// Its arguments.
    pub args: DirectiveArgs,
    /// Who issued it.
    pub from: String,
}

/// A directive line in specifications.
pub struct ShownDirective {
    /// The directive.
    pub id: u64,
    /// Its tier.
    pub tier: Seq<char>,
    /// Its state.
    pub state: Seq<char>,
    /// Its kind.
    pub kind: Seq<char>,
    /// Its arguments.
    pub args: Seq<(Seq<char>, Seq<char>)>,
    /// Who issued it.
    pub from: Seq<char>,
}

impl View for DirectiveLine {
    type V = ShownDirective;

    open spec fn view(&self) -> ShownDirective {
        ShownDirective {
            id: self.id,
            tier: self.tier@,
            state: self.state@,
            kind: self.kind@,
            args: self.args@,
            from: self.from@,
        }
    }
}

/// What a list of directive lines holds.
pub open spec fn directive_views(v: Seq<DirectiveLine>) -> Seq<ShownDirective> {
    Seq::new(v.len(), |i: int| v[i]@)
}

impl DirectiveLine {
    /// Whether the directive is waiting.
    pub fn is_pending(&self) -> (b: bool)
        ensures
            b == (self@.state == "pending"@),
    {
        same(self.state.as_str(), "pending")
    }
}

/// A number, then a tier and a state in brackets, and what follows.
pub open spec fn numbered_tier(s: Seq<char>) -> Option<(u64, Seq<char>, Seq<char>, Seq<char>)> {
    match split_once(s, " "@) {
        Some((id, rest)) => match (whole(id), after_prefix(trim_start(rest), "["@)) {
            (Some(id), Some(inner)) => match split_once(inner, "]"@) {
                Some((bracket, tail)) => match split_once(bracket, ", "@) {
                    Some((tier, state)) => Some((id, tier, state, tail)),
                    None => None,
                },
                None => None,
            },
            _ => None,
        },
        None => None,
    }
}

/// A kind, arguments in braces, and who issued it.
pub open spec fn proposal(s: Seq<char>) -> Option<
    (Seq<char>, Seq<(Seq<char>, Seq<char>)>, Seq<char>),
> {
    match split_once(trim_start(s), "{"@) {
        Some((kind, rest)) => match braced(rest) {
            Some((args, tail)) => match after_prefix(trim_start(tail), "from "@) {
                Some(from) => Some((kind, pairs_of(args), from)),
                None => None,
            },
            None => None,
        },
        None => None,
    }
}

/// What a directive line shows.
pub open spec fn directive_of(line: Seq<char>) -> Option<ShownDirective> {
    match after_prefix(line, "- directive "@) {
        Some(s) => match numbered_tier(s) {
            Some((id, tier, state, rest)) => match proposal(rest) {
                Some((kind, args, from)) => Some(
                    ShownDirective { id, tier, state, kind, args, from },
                ),
                None => None,
            },
            None => None,
        },
        None => None,
    }
}

/// The directives section read.
pub open spec fn directives_of(ls: Seq<Seq<char>>) -> Seq<ShownDirective>
    decreases ls.len(),
{
    if ls.len() == 0 {
        Seq::empty()
    } else {
        let rest = directives_of(ls.drop_last());
        match directive_of(ls.last()) {
            Some(d) => rest.push(d),
            None => rest,
        }
    }
}

fn parse_directive_line(line: &str) -> (r: Option<DirectiveLine>)
    ensures
        match r {
            Some(d) => directive_of(line@) == Some(d@),
            None => directive_of(line@) is None,
        },
{
    let v = chars_of(line);
    let s = match strip_prefix(v.as_slice(), "- directive ") {
        Some(p) => p,
        None => {
            return None;
        },
    };
    let (id_text, rest) = match split_first(s, " ") {
        Some(p) => p,
        None => {
            return None;
        },
    };
    let id: u64 = match read_whole(id_text) {
        Some(n) => n,
        None => {
            return None;
        },
    };
    let inner = match strip_prefix(trimmed_start(rest), "[") {
        Some(p) => p,
        None => {
            return None;
        },
    };
    let (bracket, rest) = match split_first(inner, "]") {
        Some(p) => p,
        None => {
            return None;
        },
    };
    let (tier, state) = match split_first(bracket, ", ") {
        Some(p) => p,
        None => {
            return None;
        },
    };
    let (kind, rest) = match split_first(trimmed_start(rest), "{") {
        Some(p) => p,
        None => {
            return None;
        },
    };
    let (args, rest) = match split_braced(rest) {
        Some(p) => p,
        None => {
            return None;
        },
    };
    let from = match strip_prefix(trimmed_start(rest), "from ") {
        Some(p) => p,
        None => {
            return None;
        },
    };
    Some(
        DirectiveLine {
            id,
            tier: text_of(tier),
            state: text_of(state),
            kind: text_of(kind),
            args: parse_args(args),
            from: text_of(from),
        },
    )
}

pub(crate) fn parse_directives(ls: &Vec<String>) -> (r: Vec<DirectiveLine>)
    ensures
        directive_views(r@) == directives_of(texts(ls@)),
{
    let mut r: Vec<DirectiveLine> = Vec::new();
    let mut i: usize = 0;
    let ghost all = texts(ls@);
    assert(all.take(0) =~= Seq::<Seq<char>>::empty());
    assert(directive_views(r@) =~= Seq::<ShownDirective>::empty());
    while i < ls.len()
        invariant
            0 <= i <= ls.len(),
            all == texts(ls@),
            directive_views(r@) == directives_of(all.take(i as int)),
        decreases ls.len() - i,
    {
        assert(all.take(i + 1).drop_last() =~= all.take(i as int));
        assert(all.take(i + 1).last() == ls@[i as int]@);
        if let Some(d) = parse_directive_line(ls[i].as_str()) {
            let ghost before = directive_views(r@);
            r.push(d);
            assert(directive_views(r@) =~= before.push(d@));
        }
        i = i + 1;
    }
    assert(all.take(i as int) =~= all);
    r
}

/// Which tiers the meta-agent has used.
#[derive(Clone, Copy, PartialEq, Eq, Structural, Debug)]
pub struct DirectiveOutcomes {
    /// The judgment tier.
    pub judgment_used: bool,
    /// The mechanical tier.
    pub mechanical_used: bool,
}

impl Default for DirectiveOutcomes {
    /// Neither tier used.
    fn default() -> (o: DirectiveOutcomes)
        ensures
            o == (DirectiveOutcomes { judgment_used: false, mechanical_used: false }),
    {
        DirectiveOutcomes { judgment_used: false, mechanical_used: false }
    }
}

/// The tier that an outcome line shows.
pub open spec fn outcome_tier(line: Seq<char>) -> Option<Seq<char>> {
    match after_prefix(line, "- directive "@) {
        Some(s) => match split_once(s, "["@) {
            Some((_, inner)) => match split_once(inner, "]"@) {
                Some((tier, _)) => Some(tier),
                None => None,
            },
            None => None,
        },
        None => None,
    }
}

/// The outcomes section read: a tier is used if a line shows it.
pub open spec fn outcomes_of(ls: Seq<Seq<char>>) -> DirectiveOutcomes {
    DirectiveOutcomes {
        judgment_used: exists|i: int|
            0 <= i < ls.len() && outcome_tier(#[trigger] ls[i]) == Some("judgment"@),
        mechanical_used: exists|i: int|
            0 <= i < ls.len() && outcome_tier(#[trigger] ls[i]) == Some("mechanical"@),
    }
}

pub(crate) fn parse_outcomes(ls: &Vec<String>) -> (r: DirectiveOutcomes)
    ensures
        r == outcomes_of(texts(ls@)),
{
    let mut judgment_used = false;
    let mut mechanical_used = false;
    let mut i: usize = 0;
    let ghost all = texts(ls@);
    while i < ls.len()
        invariant
            0 <= i <= ls.len(),
            all == texts(ls@),
            judgment_used == (exists|k: int|
                0 <= k < i && outcome_tier(#[trigger] all[k]) == Some("judgment"@)),
            mechanical_used == (exists|k: int|
                0 <= k < i && outcome_tier(#[trigger] all[k]) == Some("mechanical"@)),
        decreases ls.len() - i,
    {
        assert(all[i as int] == ls@[i as int]@);
        let v = chars_of(ls[i].as_str());
        let mut judgment = false;
        let mut mechanical = false;
        if let Some(s) = strip_prefix(v.as_slice(), "- directive ") {
            if let Some((_, inner)) = split_first(s, "[") {
                if let Some((tier, _)) = split_first(inner, "]") {
                    judgment = spells(tier, "judgment");
                    mechanical = spells(tier, "mechanical");
                }
            }
        }
        assert(judgment == (outcome_tier(all[i as int]) == Some("judgment"@)));
        assert(mechanical == (outcome_tier(all[i as int]) == Some("mechanical"@)));
        judgment_used = judgment_used || judgment;
        mechanical_used = mechanical_used || mechanical;
        i = i + 1;
    }
    DirectiveOutcomes { judgment_used, mechanical_used }
}

// ---------------------------------------------------------------------------
// Utilization.
// ---------------------------------------------------------------------------

/// What an agent does, as a line shows it.
#[derive(Clone, Copy, PartialEq, Eq, Structural, Debug)]
pub enum AgentStateLine {
    /// Idle.
    Idle,
    /// Working, and on what.
    Working { task: u64 },
    /// Asleep.
    Asleep,
}

/// A utilization line.
#[derive(PartialEq, Eq, Debug)]
pub struct UtilizationLine {
    /// The agent.
    pub agent: String,
    /// What it does.
    pub state: AgentStateLine,
    /// Its specialty.
    pub specialty: String,
}

/// A utilization line in specifications.
pub struct ShownAgent {
    /// The agent.
    pub agent: Seq<char>,
    /// What it does.
    pub state: AgentStateLine,
    /// Its specialty.
    pub specialty: Seq<char>,
}

impl View for UtilizationLine {
    type V = ShownAgent;

    open spec fn view(&self) -> ShownAgent {
        ShownAgent { agent: self.agent@, state: self.state, specialty: self.specialty@ }
    }
}

/// What a list of utilization lines holds.
pub open spec fn agent_views(v: Seq<UtilizationLine>) -> Seq<ShownAgent> {
    Seq::new(v.len(), |i: int| v[i]@)
}

/// What an agent does, and what follows.
pub open spec fn agent_state_of(s: Seq<char>) -> Option<(AgentStateLine, Seq<char>)> {
    match after_prefix(s, "Working (task "@) {
        Some(tail) => match split_once(tail, ")"@) {
            Some((task, tail)) => match whole(task) {
                Some(task) => Some((AgentStateLine::Working { task }, tail)),
                None => None,
            },
            None => None,
        },
        None => match after_prefix(s, "Idle"@) {
            Some(tail) => Some((AgentStateLine::Idle, tail)),
            None => match after_prefix(s, "Asleep"@) {
                Some(tail) => Some((AgentStateLine::Asleep, tail)),
                None => None,
            },
        },
    }
}

/// What a utilization line shows, behind its dash.
pub open spec fn agent_of(s: Seq<char>) -> Option<ShownAgent> {
    match split_once(s, ": "@) {
        Some((agent, rest)) => match agent_state_of(rest) {
            Some((state, tail)) => match after_prefix(tail, ", "@) {
                Some(part) => Some(
                    ShownAgent { agent, state, specialty: trim(piece(part, " ("@, 0)->0) },
                ),
                None => None,
            },
            None => None,
        },
        None => None,
    }
}

/// The utilization lines from `i` on: those of the block that a line `utilization:` opens, up to the
/// first line that is no list item.
pub open spec fn utilization_of(ls: Seq<Seq<char>>, i: int, inside: bool) -> Seq<ShownAgent>
    decreases ls.len() - i,
{
    if i < 0 || i >= ls.len() {
        Seq::empty()
    } else if after_prefix(ls[i], "utilization:"@) is Some {
        utilization_of(ls, i + 1, true)
    } else if !inside {
        utilization_of(ls, i + 1, false)
    } else {
        match after_prefix(trim_start(ls[i]), "- "@) {
            Some(rest) => match agent_of(rest) {
                Some(a) => seq![a] + utilization_of(ls, i + 1, true),
                None => utilization_of(ls, i + 1, true),
            },
            None => Seq::empty(),
        }
    }
}

fn parse_agent_state(s: &[char]) -> (r: Option<(AgentStateLine, &[char])>)
    ensures
        match r {
            Some((state, tail)) => agent_state_of(s@) == Some((state, tail@)),
            None => agent_state_of(s@) is None,
        },
{
    match strip_prefix(s, "Working (task ") {
        Some(tail) => match split_first(tail, ")") {
            Some((task, tail)) => match read_whole(task) {
                Some(task) => Some((AgentStateLine::Working { task }, tail)),
                None => None,
            },
            None => None,
        },
        None => match strip_prefix(s, "Idle") {
            Some(tail) => Some((AgentStateLine::Idle, tail)),
            None => match strip_prefix(s, "Asleep") {
                Some(tail) => Some((AgentStateLine::Asleep, tail)),
                None => None,
            },
        },
    }
}

fn parse_utilization_line(s: &[char]) -> (r: Option<UtilizationLine>)
    ensures
        match r {
            Some(a) => agent_of(s@) == Some(a@),
            None => agent_of(s@) is None,
        },
{
    let (agent, rest) = match split_first(s, ": ") {
        Some(p) => p,
        None => {
            return None;
        },
    };
    let (state, tail) = match parse_agent_state(rest) {
        Some(p) => p,
        None => {
            return None;
        },
    };
    let part = match strip_prefix(tail, ", ") {
        Some(p) => p,
        None => {
            return None;
        },
    };
    let specialty = match nth_piece(part, " (", 0) {
        Some(p) => p,
        None => part,
    };
    Some(
        UtilizationLine {
            agent: text_of(agent),
            state,
            specialty: text_of(trimmed(specialty)),
        },
    )
}

pub(crate) fn parse_utilization(ls: &Vec<String>) -> (r: Vec<UtilizationLine>)
    ensures
        agent_views(r@) == utilization_of(texts(ls@), 0, false),
{
    let mut r: Vec<UtilizationLine> = Vec::new();
    let mut inside = false;
    let mut i: usize = 0;
    let ghost all = texts(ls@);
    assert(agent_views(r@) + utilization_of(all, 0, false) =~= utilization_of(all, 0, false));
    while i < ls.len()
        invariant
            0 <= i <= ls.len(),
            all == texts(ls@),
            agent_views(r@) + utilization_of(all, i as int, inside) == utilization_of(
                all,
                0,
                false,
            ),
        decreases ls.len() - i,
    {
        assert(all[i as int] == ls@[i as int]@);
        let v = chars_of(ls[i].as_str());
        if strip_prefix(v.as_slice(), "utilization:").is_some() {
            inside = true;
        } else if inside {
            match strip_prefix(trimmed_start(v.as_slice()), "- ") {
                Some(rest) => {
                    if let Some(a) = parse_utilization_line(rest) {
                        let ghost before = agent_views(r@);
                        r.push(a);
                        assert(agent_views(r@) + utilization_of(all, i + 1, true) =~= before + (
                        seq![a@] + utilization_of(all, i + 1, true)));
                    }
                },
                None => {
                    assert(agent_views(r@) + Seq::empty() =~= agent_views(r@));
                    return r;
                },
            }
        }
        i = i + 1;
    }
    assert(agent_views(r@) + Seq::empty() =~= agent_views(r@));
    r
}

} // verus!
