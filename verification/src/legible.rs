//! What prompts show reads back: the lines that the prompts are made of say what they were made
//! from.
use crate::agent::AgentId;
use crate::context::shows_terminal;
use crate::board::{tag_text, StateView, TaskView};
use crate::message::MessageView;
use crate::mock::parse::{
    agent_of, agent_state_of, agents_of, between, claim_of, claim_team, marked, message_of,
    numbered_state, piece, shows_work, small, state_of, tag, task_of, team_and_title, whole,
    AgentStateLine, ShownAgent, ShownClaim, ShownMessage, ShownState, ShownTask,
};
use crate::text::{
    after_prefix, all_digits, dec, is_digit, is_space, lemma_dec, lemma_seek, lemma_seek_back,
    lemma_seek_space, no_space, number_of_dec, seek, split_once, split_space, stands_at, trim,
    trim_start,
};
use vstd::prelude::*;

verus! {

// ---------------------------------------------------------------------------
// Pieces of text.
// ---------------------------------------------------------------------------

pub proof fn lemma_prefix(p: Seq<char>, s: Seq<char>)
    ensures
        after_prefix(p + s, p) == Some(s),
{
    assert((p + s).take(p.len() as int) =~= p);
    assert((p + s).skip(p.len() as int) =~= s);
}

/// A text splits at a pattern whose first character does not stand before it.
pub proof fn lemma_split(a: Seq<char>, p: Seq<char>, b: Seq<char>)
    requires
        p.len() > 0,
        forall|i: int| 0 <= i < a.len() ==> #[trigger] a[i] != p[0],
    ensures
        split_once(a + p + b, p) == Some((a, b)),
{
    let s = a + p + b;
    let k = a.len() as int;
    assert(s.subrange(k, k + p.len()) =~= p);
    assert forall|j: int| 0 <= j < k implies !stands_at(s, p, j) by {
        if stands_at(s, p, j) {
            assert(s.subrange(j, j + p.len())[0] == s[j]);
            assert(s[j] == a[j]);
        }
    }
    lemma_seek(s, p, 0, k);
    assert(s.take(k) =~= a);
    assert(s.skip(k + p.len()) =~= b);
}

/// What stands between the first and the last double quote.
proof fn lemma_between(pre: Seq<char>, t: Seq<char>, post: Seq<char>)
    requires
        forall|i: int| 0 <= i < pre.len() ==> #[trigger] pre[i] != '"',
        forall|i: int| 0 <= i < post.len() ==> #[trigger] post[i] != '"',
    ensures
        between(pre + "\""@ + t + "\""@ + post) == Some(t),
{
    reveal_strlit("\"");
    let q = "\""@;
    let s = pre + q + t + q + post;
    let a = pre.len() as int;
    let b = a + 1 + t.len();
    assert(q.len() == 1 && q[0] == '"');
    assert(s[a] == '"');
    assert(s[b] == '"');
    assert(s.subrange(a, a + 1) =~= q);
    assert(s.subrange(b, b + 1) =~= q);
    assert forall|j: int| 0 <= j < a implies !stands_at(s, q, j) by {
        if stands_at(s, q, j) {
            assert(s.subrange(j, j + 1)[0] == s[j]);
            assert(s[j] == pre[j]);
        }
    }
    lemma_seek(s, q, 0, a);
    assert forall|j: int| b < j <= s.len() implies !stands_at(s, q, j) by {
        if stands_at(s, q, j) {
            assert(s.subrange(j, j + 1)[0] == s[j]);
            assert(s[j] == post[j - b - 1]);
        }
    }
    lemma_seek_back(s, q, s.len() as int, b);
    assert(s.subrange(a + 1, b) =~= t);
}

/// A number reads back.
pub proof fn lemma_whole(n: u64)
    ensures
        whole(dec(n as nat)) == Some(n),
        all_digits(dec(n as nat)),
        dec(n as nat).len() > 0,
{
    number_of_dec(n as nat, u64::MAX as nat);
    lemma_dec(n as nat);
}

/// A character of a handle: a letter, a digit or a hyphen.
pub open spec fn handle_char(c: char) -> bool {
    ('a' <= c && c <= 'z') || is_digit(c) || c == '-'
}

/// A handle holds letters, digits and hyphens.
proof fn lemma_handle(a: AgentId)
    ensures
        a.handle().len() > 0,
        forall|i: int| 0 <= i < a.handle().len() ==> handle_char(#[trigger] a.handle()[i]),
{
    reveal_strlit("orchestrator");
    reveal_strlit("agent-");
    reveal_strlit("meta-");
    match a {
        AgentId::Orchestrator => {},
        AgentId::Team(n) => {
            lemma_dec(n as nat);
            let h = a.handle();
            assert forall|i: int| 0 <= i < h.len() implies handle_char(#[trigger] h[i]) by {
                if i >= 6 {
                    assert(h[i] == dec(n as nat)[i - 6]);
                }
            }
        },
        AgentId::Meta(n) => {
            lemma_dec(n as nat);
            let h = a.handle();
            assert forall|i: int| 0 <= i < h.len() implies handle_char(#[trigger] h[i]) by {
                if i >= 5 {
                    assert(h[i] == dec(n as nat)[i - 5]);
                }
            }
        },
    }
}

// ---------------------------------------------------------------------------
// Tasks.
// ---------------------------------------------------------------------------

/// A state as a line shows it.
pub open spec fn shown_state(s: StateView) -> ShownState {
    match s {
        StateView::Open => ShownState::Open,
        StateView::Claimed { by } => ShownState::Claimed { by: by.handle() },
        StateView::Done { .. } => ShownState::Done,
        StateView::Cancelled { .. } => ShownState::Cancelled,
    }
}

proof fn lemma_state(s: StateView)
    ensures
        state_of(s.label()) == Some(shown_state(s)),
        forall|i: int| 0 <= i < s.label().len() ==> #[trigger] s.label()[i] != ']',
{
    reveal_strlit("Open");
    reveal_strlit("Done");
    reveal_strlit("Cancelled");
    reveal_strlit("Claimed by ");
    match s {
        StateView::Claimed { by } => {
            lemma_handle(by);
            lemma_prefix("Claimed by "@, by.handle());
            let l = s.label();
            assert(l[1] == 'l');
            assert("Open"@[1] == 'p');
            assert forall|i: int| 0 <= i < l.len() implies #[trigger] l[i] != ']' by {
                if i >= 11 {
                    assert(l[i] == by.handle()[i - 11]);
                }
            }
        },
        StateView::Done { .. } => {
            assert("Done"@[0] == 'D');
            assert("Open"@[0] == 'O');
        },
        StateView::Cancelled { .. } => {
            let l = s.label();
            assert(l.len() == 9);
            assert("Open"@.len() == 4);
            assert("Done"@.len() == 4);
        },
        StateView::Open => {},
    }
}

/// A tag that a line can show: a word other than `-`, which stands for none.
pub open spec fn showable(team: Option<Seq<char>>) -> bool {
    match team {
        Some(t) => t.len() > 0 && no_space(t) && t != "-"@,
        None => true,
    }
}

proof fn lemma_tag(team: Option<Seq<char>>)
    requires
        showable(team),
    ensures
        tag(tag_text(team)) == team,
        no_space(tag_text(team)),
        tag_text(team).len() > 0,
{
    reveal_strlit("-");
}

/// When the board digest shrinks, a line counts as that of a finished task exactly if its task is done
/// or cancelled, whatever its title says.
pub proof fn terminal_lines_show_terminal_tasks(t: TaskView)
    ensures
        shows_terminal(t.line()) == t.state.terminal(),
{
    let id = dec(t.id.0 as nat);
    let label = t.state.label();
    reveal_strlit("- task ");
    reveal_strlit(" [");
    reveal_strlit("[");
    reveal_strlit(" ");
    reveal_strlit("] team:");
    reveal_strlit("[Done]");
    reveal_strlit("[Cancelled]");
    reveal_strlit("Open");
    reveal_strlit("Done");
    reveal_strlit("Cancelled");
    reveal_strlit("Claimed by ");
    lemma_whole(t.id.0);
    let tail = "] team:"@ + (tag_text(t.team) + "  \""@ + t.title + "\""@);
    let rest = "["@ + label + tail;
    let s = id + " "@ + rest;
    assert(" ["@ =~= " "@ + "["@);
    assert(t.line() =~= "- task "@ + s);
    lemma_prefix("- task "@, s);
    assert forall|i: int| 0 <= i < id.len() implies #[trigger] id[i] != " "@[0] by {
        assert(is_digit(id[i]));
    }
    lemma_split(id, " "@, rest);
    assert(tail[0] == ']');
    assert(rest[1] == label[0]);
    assert(rest.take(6).len() == 6 ==> rest.take(6)[1] == rest[1]);
    assert(rest.take(11).len() == 11 ==> rest.take(11)[1] == rest[1] && rest.take(11)[2]
        == rest[2]);
    match t.state {
        StateView::Done { .. } => {
            assert(rest.take(6) =~= "[Done]"@);
        },
        StateView::Cancelled { .. } => {
            assert(rest.take(11) =~= "[Cancelled]"@);
        },
        StateView::Open => {},
        StateView::Claimed { .. } => {
            assert(rest[2] == label[1]);
            assert(label[1] == 'l');
            assert("[Cancelled]"@[2] == 'a');
        },
    }
}

/// A task line of the board digest reads back: number, state, team and title.
pub proof fn task_lines_read_back(t: TaskView)
    requires
        showable(t.team),
    ensures
        after_prefix(t.line(), "- task "@) is Some,
        task_of(after_prefix(t.line(), "- task "@)->0) == Some(
            ShownTask {
                id: t.id.0,
                state: shown_state(t.state),
                team: t.team,
                title: t.title,
            },
        ),
{
    let id = dec(t.id.0 as nat);
    let label = t.state.label();
    let tagged = tag_text(t.team);
    reveal_strlit("- task ");
    reveal_strlit(" [");
    reveal_strlit("[");
    reveal_strlit("]");
    reveal_strlit(" ");
    reveal_strlit("] team:");
    reveal_strlit("team:");
    reveal_strlit("  \"");
    reveal_strlit("\"");
    lemma_whole(t.id.0);
    lemma_state(t.state);
    lemma_tag(t.team);
    let quoted = " "@ + "\""@ + t.title + "\""@;
    let placed = "team:"@ + tagged + " "@ + quoted;
    let tail = " "@ + placed;
    let inner = label + "]"@ + tail;
    let rest = "["@ + inner;
    let s = id + " "@ + rest;
    assert(t.line() =~= "- task "@ + s);
    lemma_prefix("- task "@, s);
    assert forall|i: int| 0 <= i < id.len() implies #[trigger] id[i] != " "@[0] by {
        assert(is_digit(id[i]));
    }
    lemma_split(id, " "@, rest);
    assert(rest[0] == '[');
    assert(!is_space(rest[0]));
    assert(trim_start(rest) == rest);
    lemma_prefix("["@, inner);
    lemma_split(label, "]"@, tail);
    assert(numbered_state(s) == Some((t.id.0, shown_state(t.state), tail)));
    assert(tail[0] == ' ');
    assert(tail.skip(1) =~= placed);
    assert(placed[0] == 't');
    assert(trim_start(placed) == placed);
    assert(trim_start(tail) == placed);
    let word = tagged + " "@ + quoted;
    assert(placed =~= "team:"@ + word);
    lemma_prefix("team:"@, word);
    let k = tagged.len() as int;
    assert(word[k] == ' ');
    assert forall|j: int| 0 <= j < k implies !is_space(#[trigger] word[j]) by {
        assert(word[j] == tagged[j]);
    }
    lemma_seek_space(word, 0, k);
    assert(word.take(k) =~= tagged);
    assert(word.skip(k + 1) =~= quoted);
    assert(split_space(word) == Some((tagged, quoted)));
    assert(quoted =~= " "@ + "\""@ + t.title + "\""@ + Seq::<char>::empty());
    lemma_between(" "@, t.title, Seq::empty());
    assert(team_and_title(tail) == Some((t.team, t.title)));
}

/// A text without a character.
pub open spec fn lacks(s: Seq<char>, c: char) -> bool {
    forall|i: int| 0 <= i < s.len() ==> #[trigger] s[i] != c
}

/// The team of a claimed-task line.
proof fn lemma_claim_team(head: Seq<char>, t: Seq<char>)
    requires
        no_space(t),
    ensures
        claim_team(head + "(team "@ + t + ")"@) == tag(t),
{
    reveal_strlit("(team ");
    reveal_strlit(")");
    let p = "(team "@;
    let tail = t + ")"@;
    let s = head + p + t + ")"@;
    let k = head.len() as int;
    assert(p[5] == ' ');
    assert(s.subrange(k, k + 6) =~= p);
    assert forall|j: int| k < j <= s.len() implies !stands_at(s, p, j) by {
        if stands_at(s, p, j) {
            assert(s.subrange(j, j + 6)[5] == s[j + 5]);
            assert(s[j + 5] == tail[j + 5 - k - 6]);
            if j + 5 - k - 6 < t.len() {
                assert(!is_space(t[j + 5 - k - 6]));
            }
        }
    }
    lemma_seek_back(s, p, s.len() as int, k);
    assert(s.skip(k + 6) =~= tail);
    assert(tail.last() == ')');
    assert(tail.drop_last() =~= t);
}

/// The line on a claimed task reads back: number, title and team.
pub proof fn claimed_lines_read_back(t: TaskView)
    requires
        showable(t.team),
        t.team is Some ==> lacks(t.team->0, '"'),
    ensures
        claim_of(t.claim_line()) == Some(
            ShownClaim { id: t.id.0, title: t.title, team: t.team },
        ),
{
    let id = dec(t.id.0 as nat);
    let tagged = tag_text(t.team);
    reveal_strlit("task ");
    reveal_strlit(" ");
    reveal_strlit(" — \"");
    reveal_strlit("— ");
    reveal_strlit("\"");
    reveal_strlit("\" (team ");
    reveal_strlit(" ");
    reveal_strlit("(team ");
    reveal_strlit(" (team ");
    reveal_strlit(")");
    reveal_strlit("-");
    lemma_whole(t.id.0);
    lemma_tag(t.team);
    let post = " (team "@ + tagged + ")"@;
    let rest = "— "@ + "\""@ + t.title + "\""@ + post;
    let s = id + " "@ + rest;
    assert(t.claim_line() =~= "task "@ + s);
    lemma_prefix("task "@, s);
    assert forall|i: int| 0 <= i < id.len() implies #[trigger] id[i] != " "@[0] by {
        assert(is_digit(id[i]));
    }
    lemma_split(id, " "@, rest);
    assert forall|i: int| 0 <= i < post.len() implies #[trigger] post[i] != '"' by {
        if 7 <= i < 7 + tagged.len() {
            assert(post[i] == tagged[i - 7]);
        }
    }
    lemma_between("— "@, t.title, post);
    let head = "— "@ + "\""@ + t.title + "\""@ + " "@;
    lemma_claim_team(head, tagged);
    assert(rest =~= head + "(team "@ + tagged + ")"@);
}

/// A message line reads back: number, sender, scope and body.
pub proof fn message_lines_read_back(m: MessageView)
    requires
        lacks(m.address.label(), ')'),
    ensures
        message_of(m.line()) == Some(
            ShownMessage {
                id: m.id.0,
                from: m.sender.handle(),
                kind: m.address.label(),
                body: m.body,
            },
        ),
{
    let id = dec(m.id.0 as nat);
    let from = m.sender.handle();
    let kind = m.address.label();
    reveal_strlit("- msg ");
    reveal_strlit(" from ");
    reveal_strlit(" (");
    reveal_strlit("): \"");
    reveal_strlit("):");
    reveal_strlit(" ");
    reveal_strlit("\"");
    lemma_whole(m.id.0);
    lemma_handle(m.sender);
    let body = " "@ + "\""@ + m.body + "\""@ + Seq::<char>::empty();
    let scoped = kind + "):"@ + body;
    let rest = from + " ("@ + scoped;
    let s = id + " from "@ + rest;
    assert(m.line() =~= "- msg "@ + s);
    lemma_prefix("- msg "@, s);
    assert forall|i: int| 0 <= i < id.len() implies #[trigger] id[i] != " from "@[0] by {
        assert(is_digit(id[i]));
    }
    lemma_split(id, " from "@, rest);
    assert forall|i: int| 0 <= i < from.len() implies #[trigger] from[i] != " ("@[0] by {
        assert(handle_char(from[i]));
    }
    lemma_split(from, " ("@, scoped);
    lemma_split(kind, "):"@, body);
    lemma_between(" "@, m.body, Seq::empty());
}

proof fn lemma_verb_end(verb: Seq<char>, rest: Seq<char>, i: int)
    requires
        no_space(verb),
        lacks(verb, '{'),
        0 <= i <= verb.len(),
    ensures
        crate::mock::parse::verb_end(verb + "{"@ + rest, i) == verb.len(),
    decreases verb.len() - i,
{
    reveal_strlit("{");
    let s = verb + "{"@ + rest;
    if i < verb.len() {
        assert(s[i] == verb[i]);
        lemma_verb_end(verb, rest, i + 1);
    } else {
        assert(s[i] == '{');
    }
}

/// An activity line shows work exactly if its verb is work.
pub proof fn activity_lines_show_work(
    turn: u64,
    verb: Seq<char>,
    gist: Seq<char>,
    word: Seq<char>,
)
    requires
        no_space(verb),
        lacks(verb, '{'),
    ensures
        shows_work(crate::context::window_text(turn, verb, gist, word))
            == crate::mock::parse::is_work(verb),
{
    let n = dec(turn as nat);
    reveal_strlit("- [turn ");
    reveal_strlit("] ");
    reveal_strlit("{");
    reveal_strlit("} -> ");
    lemma_whole(turn);
    let tail = gist + "} -> "@ + word;
    let action = verb + "{"@ + tail;
    let s = n + "] "@ + action;
    assert(crate::context::window_text(turn, verb, gist, word) =~= "- [turn "@ + s);
    lemma_prefix("- [turn "@, s);
    assert forall|i: int| 0 <= i < n.len() implies #[trigger] n[i] != "] "@[0] by {
        assert(is_digit(n[i]));
    }
    lemma_split(n, "] "@, action);
    lemma_verb_end(verb, tail, 0);
    assert(action.take(verb.len() as int) =~= verb);
}

// ---------------------------------------------------------------------------
// Agents.
// ---------------------------------------------------------------------------

proof fn lemma_no_split(s: Seq<char>, p: Seq<char>, i: int)
    requires
        p.len() > 0,
        0 <= i,
        exists|k: int| 0 <= k < p.len() && lacks(s, #[trigger] p[k]),
    ensures
        seek(s, p, i) is None,
    decreases s.len() - i,
{
    if i + p.len() <= s.len() {
        let k = choose|k: int| 0 <= k < p.len() && lacks(s, #[trigger] p[k]);
        if stands_at(s, p, i) {
            assert(s.subrange(i, i + p.len())[k] == s[i + k]);
        }
        if i < s.len() {
            lemma_no_split(s, p, i + 1);
        }
    }
}

/// A word has nothing to trim.
proof fn lemma_trim_word(s: Seq<char>)
    requires
        no_space(s),
        s.len() > 0,
    ensures
        trim(s) == s,
{
    assert(!is_space(s[0]));
    assert(!is_space(s[s.len() - 1]));
}

/// What an agent does, as a line shows it.
pub open spec fn shown_meter(s: crate::metrics::MeterState) -> AgentStateLine {
    match s {
        crate::metrics::MeterState::Idle => AgentStateLine::Idle,
        crate::metrics::MeterState::Working(task) => AgentStateLine::Working { task: task.0 },
        crate::metrics::MeterState::Asleep => AgentStateLine::Asleep,
    }
}

proof fn lemma_agent(agent: AgentId, s: Seq<char>, state: AgentStateLine, tail: Seq<char>)
    requires
        agent_state_of(s) == Some((state, tail)),
    ensures
        after_prefix(trim_start("  - "@ + agent.handle() + ": "@ + s), "- "@) is Some,
        agent_of(
            after_prefix(trim_start("  - "@ + agent.handle() + ": "@ + s), "- "@)->0,
        ) == match after_prefix(tail, ", "@) {
            Some(part) => Some(
                ShownAgent {
                    agent: agent.handle(),
                    state,
                    specialty: trim(piece(part, " ("@, 0)->0),
                },
            ),
            None => None,
        },
{
    reveal_strlit("  - ");
    reveal_strlit("- ");
    reveal_strlit(": ");
    lemma_handle(agent);
    let h = agent.handle();
    let rest = h + ": "@ + s;
    let line = "  - "@ + h + ": "@ + s;
    let item = "- "@ + rest;
    assert(line[0] == ' ' && line[1] == ' ');
    assert(line.skip(1).skip(1) =~= item);
    assert(line.skip(1)[0] == ' ');
    assert(item[0] == '-');
    assert(trim_start(item) == item);
    assert(trim_start(line.skip(1)) == item);
    assert(trim_start(line) == item);
    lemma_prefix("- "@, rest);
    assert forall|i: int| 0 <= i < h.len() implies #[trigger] h[i] != ": "@[0] by {
        assert(handle_char(h[i]));
    }
    lemma_split(h, ": "@, s);
}

/// A utilization line of the metrics digest reads back: agent, what it does, and specialty.
pub proof fn utilization_lines_read_back(
    v: crate::metrics::MetricsView,
    m: crate::metrics::MeterView,
)
    requires
        no_space(m.specialty),
        m.specialty.len() > 0,
    ensures
        after_prefix(trim_start(v.utilization(m)), "- "@) is Some,
        agent_of(after_prefix(trim_start(v.utilization(m)), "- "@)->0) == Some(
            ShownAgent {
                agent: m.id.handle(),
                state: shown_meter(m.state),
                specialty: m.specialty,
            },
        ),
{
    reveal_strlit("  - ");
    reveal_strlit(": ");
    reveal_strlit(": Working (task ");
    reveal_strlit("Working (task ");
    reveal_strlit("), ");
    reveal_strlit(")");
    reveal_strlit(", ");
    reveal_strlit(": Idle, ");
    reveal_strlit("Idle");
    reveal_strlit(": Asleep, ");
    reveal_strlit("Asleep");
    reveal_strlit(" (idle ");
    reveal_strlit(" (");
    reveal_strlit("idle ");
    let slug = m.specialty;
    lemma_trim_word(slug);
    assert(" ("@[0] == ' ');
    assert forall|i: int| 0 <= i < slug.len() implies #[trigger] slug[i] != ' ' by {
        assert(!is_space(slug[i]));
    }
    assert(lacks(slug, " ("@[0]));
    lemma_no_split(slug, " ("@, 0);
    match m.state {
        crate::metrics::MeterState::Working(task) => {
            let n = dec(task.0 as nat);
            lemma_whole(task.0);
            let tail = ", "@ + slug;
            let s = "Working (task "@ + (n + ")"@ + tail);
            lemma_prefix("Working (task "@, n + ")"@ + tail);
            assert forall|i: int| 0 <= i < n.len() implies #[trigger] n[i] != ")"@[0] by {
                assert(is_digit(n[i]));
            }
            lemma_split(n, ")"@, tail);
            lemma_agent(m.id, s, AgentStateLine::Working { task: task.0 }, tail);
            assert(v.utilization(m) =~= "  - "@ + m.id.handle() + ": "@ + s);
            lemma_prefix(", "@, slug);
        },
        crate::metrics::MeterState::Idle => {
            let age = dec(crate::metrics::age(v.events(), m.idle_since) as nat);
            let part = slug + " ("@ + ("idle "@ + age + ")"@);
            let tail = ", "@ + part;
            let s = "Idle"@ + tail;
            assert(s[0] == 'I');
            assert("Working (task "@[0] == 'W');
            assert(after_prefix(s, "Working (task "@) is None) by {
                if s.len() >= 14 {
                    assert(s.take(14)[0] == s[0]);
                }
            }
            lemma_prefix("Idle"@, tail);
            lemma_agent(m.id, s, AgentStateLine::Idle, tail);
            assert(v.utilization(m) =~= "  - "@ + m.id.handle() + ": "@ + s);
            lemma_prefix(", "@, part);
            lemma_split(slug, " ("@, "idle "@ + age + ")"@);
        },
        crate::metrics::MeterState::Asleep => {
            let tail = ", "@ + slug;
            let s = "Asleep"@ + tail;
            assert(s[0] == 'A');
            assert(after_prefix(s, "Working (task "@) is None) by {
                if s.len() >= 14 {
                    assert(s.take(14)[0] == s[0]);
                }
            }
            assert(after_prefix(s, "Idle"@) is None) by {
                assert(s.take(4)[0] == s[0]);
            }
            lemma_prefix("Asleep"@, tail);
            lemma_agent(m.id, s, AgentStateLine::Asleep, tail);
            assert(v.utilization(m) =~= "  - "@ + m.id.handle() + ": "@ + s);
            lemma_prefix(", "@, slug);
        },
    }
}

/// Reading a word.
proof fn lemma_reading_word(s: Seq<char>)
    requires
        no_space(s),
    ensures
        crate::text::reading(s, crate::text::Separator::Space) == (Seq::<Seq<char>>::empty(), s),
    decreases s.len(),
{
    if s.len() > 0 {
        let d = s.drop_last();
        assert forall|i: int| 0 <= i < d.len() implies !is_space(#[trigger] d[i]) by {
            assert(!is_space(s[i]));
        }
        lemma_reading_word(d);
        assert(!is_space(s.last()));
        assert(d.push(s.last()) =~= s);
    } else {
        assert(s =~= Seq::<char>::empty());
    }
}

/// The first word stays the first.
proof fn lemma_first_word(word: Seq<char>, rest: Seq<char>)
    requires
        no_space(word),
        word.len() > 0,
    ensures
        ({
            let (done, cur) = crate::text::reading(
                word + " "@ + rest,
                crate::text::Separator::Space,
            );
            done.len() > 0 && done[0] == word
        }),
    decreases rest.len(),
{
    reveal_strlit(" ");
    let s = word + " "@ + rest;
    if rest.len() == 0 {
        assert(s.drop_last() =~= word);
        lemma_reading_word(word);
        assert(s.last() == ' ');
    } else {
        lemma_first_word(word, rest.drop_last());
        assert(s.drop_last() =~= word + " "@ + rest.drop_last());
    }
}

proof fn lemma_small(n: nat)
    requires
        n <= u32::MAX,
    ensures
        small(dec(n)) == Some(n as u32),
        all_digits(dec(n)),
        dec(n).len() > 0,
{
    number_of_dec(n, u32::MAX as nat);
    lemma_dec(n);
}

/// The clause on team agents.
spec fn agents_clause(w: nat, i: nat, a: nat) -> Seq<char> {
    dec(w) + "W"@ + "/"@ + (dec(i) + "I"@ + "/"@ + (dec(a) + "S"@))
}

/// The three parts of the clause.
proof fn lemma_clause_parts(w: nat, i: nat, a: nat)
    ensures
        piece(agents_clause(w, i, a), "/"@, 0) == Some(dec(w) + "W"@),
        piece(agents_clause(w, i, a), "/"@, 1) == Some(dec(i) + "I"@),
        piece(agents_clause(w, i, a), "/"@, 2) == Some(dec(a) + "S"@),
{
    reveal_strlit("/");
    lemma_clause_chars(w, i, a);
    let working = dec(w) + "W"@;
    let idle = dec(i) + "I"@;
    let asleep = dec(a) + "S"@;
    let second = idle + "/"@ + asleep;
    lemma_split(working, "/"@, second);
    lemma_split(idle, "/"@, asleep);
    lemma_no_split(asleep, "/"@, 0);
    let clause = agents_clause(w, i, a);
    assert(split_once(clause, "/"@) == Some((working, second)));
    assert(split_once(second, "/"@) == Some((idle, asleep)));
    assert(split_once(asleep, "/"@) is None);
    assert(piece(asleep, "/"@, 0) == Some(asleep));
    assert(piece(second, "/"@, 0) == Some(idle));
    assert(piece(second, "/"@, 1) == Some(asleep));
    assert(piece(clause, "/"@, 1) == piece(second, "/"@, 0));
    assert(piece(clause, "/"@, 2) == piece(second, "/"@, 1));
}

/// The numbers in the parts of the clause.
proof fn lemma_marked(n: nat, mark: Seq<char>, c: char)
    requires
        n <= u32::MAX,
        mark == seq![c],
    ensures
        marked(Some(dec(n) + mark), c) == Some(n as u32),
{
    lemma_small(n);
    let s = dec(n) + mark;
    assert(s.last() == c);
    assert(s.drop_last() =~= dec(n));
}

proof fn lemma_agents_of(pre: Seq<char>, w: nat, i: nat, a: nat, tail: Seq<char>)
    requires
        w <= u32::MAX,
        i <= u32::MAX,
        a <= u32::MAX,
        lacks(pre, 'a'),
        lacks(tail, 'g'),
    ensures
        agents_of(pre + "agents "@ + (agents_clause(w, i, a) + " "@ + tail)) == Some(
            (w as u32, i as u32, a as u32),
        ),
{
    reveal_strlit("agents ");
    reveal_strlit(" ");
    let clause = agents_clause(w, i, a);
    let post = clause + " "@ + tail;
    let rest = pre + "agents "@ + post;
    assert("agents "@[0] == 'a');
    assert("agents "@[1] == 'g');
    lemma_split(pre, "agents "@, post);
    lemma_clause_chars(w, i, a);
    assert(lacks(post, 'g')) by {
        assert forall|k: int| 0 <= k < post.len() implies #[trigger] post[k] != 'g' by {
            if k < clause.len() {
                assert(post[k] == clause[k]);
            } else if k > clause.len() {
                assert(post[k] == tail[k - clause.len() - 1]);
            }
        }
    }
    assert(lacks(post, "agents "@[1]));
    lemma_no_split(post, "agents "@, 0);
    assert(piece(post, "agents "@, 0) == Some(post));
    assert(piece(rest, "agents "@, 1) == piece(post, "agents "@, 0));
    lemma_first_word(clause, tail);
    let ws = crate::text::words(post, crate::text::Separator::Space);
    assert(ws.len() > 0 && ws[0] == clause);
    lemma_clause_parts(w, i, a);
    reveal_strlit("W");
    reveal_strlit("I");
    reveal_strlit("S");
    assert("W"@ =~= seq!['W']);
    assert("I"@ =~= seq!['I']);
    assert("S"@ =~= seq!['S']);
    lemma_marked(w, "W"@, 'W');
    lemma_marked(i, "I"@, 'I');
    lemma_marked(a, "S"@, 'S');
}

/// The health line reads back: how many team agents are working, idle and asleep.
pub proof fn health_lines_read_back(v: crate::metrics::MetricsView)
    requires
        crate::metrics::state_tally(v.team_agents).0 <= u32::MAX,
        crate::metrics::state_tally(v.team_agents).1 <= u32::MAX,
        crate::metrics::state_tally(v.team_agents).2 <= u32::MAX,
    ensures
        after_prefix(v.health(), "run-health:"@) is Some,
        agents_of(after_prefix(v.health(), "run-health:"@)->0) == Some(
            (
                crate::metrics::state_tally(v.team_agents).0 as u32,
                crate::metrics::state_tally(v.team_agents).1 as u32,
                crate::metrics::state_tally(v.team_agents).2 as u32,
            ),
        ),
{
    let (w, i, a) = crate::metrics::state_tally(v.team_agents);
    let done = dec(v.counts.tasks_completed as nat);
    let all = dec(v.counts.tasks_created as nat);
    let deep = dec(crate::metrics::deepest(v.pending));
    let most = dec(v.counts.mailbox_max_depth as nat);
    let ticks = dec(v.counts.ticks_since_done as nat);
    lemma_dec(v.counts.tasks_completed as nat);
    lemma_dec(v.counts.tasks_created as nat);
    lemma_dec(crate::metrics::deepest(v.pending));
    lemma_dec(v.counts.mailbox_max_depth as nat);
    lemma_dec(v.counts.ticks_since_done as nat);
    let pre = " done "@ + done + "/"@ + all + " · "@;
    let tail = "· mailbox depth "@ + deep + " (max "@ + most + ") · ticks-since-done "@ + ticks;
    let rest = pre + "agents "@ + (agents_clause(w, i, a) + " "@ + tail);
    lemma_health_shape(v, done, all, deep, most, ticks);
    lemma_prefix("run-health:"@, rest);
    lemma_head_chars(done, all);
    lemma_tail_chars(deep, most, ticks);
    lemma_agents_of(pre, w, i, a, tail);
}

proof fn lemma_head_chars(done: Seq<char>, all: Seq<char>)
    requires
        all_digits(done),
        all_digits(all),
    ensures
        lacks(" done "@ + done + "/"@ + all + " · "@, 'a'),
{
    reveal_strlit(" done ");
    reveal_strlit("/");
    reveal_strlit(" · ");
    let pre = " done "@ + done + "/"@ + all + " · "@;
    assert forall|k: int| 0 <= k < pre.len() implies #[trigger] pre[k] != 'a' by {
        if 6 <= k < 6 + done.len() {
            assert(pre[k] == done[k - 6]);
        } else if 7 + done.len() <= k < 7 + done.len() + all.len() {
            assert(pre[k] == all[k - 7 - done.len()]);
        }
    }
}

/// The health line taken apart.
#[verifier::spinoff_prover]
proof fn lemma_health_shape(
    v: crate::metrics::MetricsView,
    done: Seq<char>,
    all: Seq<char>,
    deep: Seq<char>,
    most: Seq<char>,
    ticks: Seq<char>,
)
    requires
        done == dec(v.counts.tasks_completed as nat),
        all == dec(v.counts.tasks_created as nat),
        deep == dec(crate::metrics::deepest(v.pending)),
        most == dec(v.counts.mailbox_max_depth as nat),
        ticks == dec(v.counts.ticks_since_done as nat),
    ensures
        ({
            let (w, i, a) = crate::metrics::state_tally(v.team_agents);
            let pre = " done "@ + done + "/"@ + all + " · "@;
            let tail = "· mailbox depth "@ + deep + " (max "@ + most + ") · ticks-since-done "@
                + ticks;
            v.health() == "run-health:"@ + (pre + "agents "@ + (agents_clause(w, i, a) + " "@
                + tail))
        }),
{
    let (w, i, a) = crate::metrics::state_tally(v.team_agents);
    let pre = " done "@ + done + "/"@ + all + " · "@;
    let tail = "· mailbox depth "@ + deep + " (max "@ + most + ") · ticks-since-done "@ + ticks;
    let (x, y, z) = (dec(w), dec(i), dec(a));
    assert("run-health: done "@ =~= "run-health:"@ + " done "@) by {
        reveal_strlit("run-health: done ");
        reveal_strlit("run-health:");
        reveal_strlit(" done ");
    }
    assert(" · agents "@ =~= " · "@ + "agents "@) by {
        reveal_strlit(" · agents ");
        reveal_strlit(" · ");
        reveal_strlit("agents ");
    }
    assert("W/"@ =~= "W"@ + "/"@) by {
        reveal_strlit("W/");
        reveal_strlit("W");
        reveal_strlit("/");
    }
    assert("I/"@ =~= "I"@ + "/"@) by {
        reveal_strlit("I/");
        reveal_strlit("I");
        reveal_strlit("/");
    }
    assert("S · mailbox depth "@ =~= "S"@ + " "@ + "· mailbox depth "@) by {
        reveal_strlit("S · mailbox depth ");
        reveal_strlit("S");
        reveal_strlit(" ");
        reveal_strlit("· mailbox depth ");
    }
    let rh = "run-health:"@;
    let head = rh + " done "@ + done + "/"@ + all + (" · "@ + "agents "@);
    let m = "· mailbox depth "@;
    lemma_head_shape(rh, " done "@, done, "/"@, all, " · "@, "agents "@);
    lemma_clause_shape(head, x, "W"@, "/"@, y, "I"@, z, "S"@, " "@, m);
    let clause = agents_clause(w, i, a);
    lemma_tail_shape(head, clause, " "@, m, deep, " (max "@, most, ") · ticks-since-done "@, ticks);
    let last = clause + " "@ + tail;
    assert(v.health() == head + last);
    lemma_assoc(rh + pre, "agents "@, last);
    lemma_assoc(rh, pre, "agents "@ + last);
    lemma_assoc(pre, "agents "@, last);
}

proof fn lemma_assoc(a: Seq<char>, b: Seq<char>, c: Seq<char>)
    ensures
        a + b + c == a + (b + c),
{
    assert(a + b + c =~= a + (b + c));
}

proof fn lemma_head_shape(
    rh: Seq<char>,
    d: Seq<char>,
    done: Seq<char>,
    sl: Seq<char>,
    all: Seq<char>,
    dot: Seq<char>,
    ag: Seq<char>,
)
    ensures
        rh + d + done + sl + all + (dot + ag) == rh + (d + done + sl + all + dot) + ag,
{
    assert(rh + d + done + sl + all + (dot + ag) =~= rh + (d + done + sl + all + dot) + ag);
}

proof fn lemma_clause_shape(
    h: Seq<char>,
    x: Seq<char>,
    w: Seq<char>,
    sl: Seq<char>,
    y: Seq<char>,
    i: Seq<char>,
    z: Seq<char>,
    s: Seq<char>,
    sp: Seq<char>,
    m: Seq<char>,
)
    ensures
        h + x + (w + sl) + y + (i + sl) + z + (s + sp + m) == h + ((x + w + sl + (y + i + sl + (z
            + s))) + sp + m),
{
    assert(h + x + (w + sl) + y + (i + sl) =~= h + (x + w + sl + (y + i + sl)));
    let u = x + w + sl + (y + i + sl);
    assert(h + u + z + (s + sp + m) =~= h + (u + (z + s) + sp + m));
    assert(u + (z + s) =~= x + w + sl + (y + i + sl + (z + s)));
}

proof fn lemma_tail_shape(
    h: Seq<char>,
    c: Seq<char>,
    sp: Seq<char>,
    m: Seq<char>,
    deep: Seq<char>,
    mx: Seq<char>,
    most: Seq<char>,
    k: Seq<char>,
    ticks: Seq<char>,
)
    ensures
        h + (c + sp + m) + deep + mx + most + k + ticks == h + (c + sp + (m + deep + mx + most + k
            + ticks)),
{
    let t = m + deep + mx + most + k + ticks;
    assert(h + (c + sp + m) =~= h + (c + sp) + m);
    let g = h + (c + sp);
    assert(g + m + deep + mx + most + k + ticks =~= g + t);
    assert(g + t =~= h + (c + sp + t));
}

proof fn lemma_clause_chars(w: nat, i: nat, a: nat)
    ensures
        ({
            let working = dec(w) + "W"@;
            let idle = dec(i) + "I"@;
            let asleep = dec(a) + "S"@;
            let clause = working + "/"@ + (idle + "/"@ + asleep);
            &&& no_space(clause)
            &&& lacks(clause, 'g')
            &&& clause.len() > 0
            &&& forall|k: int| 0 <= k < working.len() ==> #[trigger] working[k] != "/"@[0]
            &&& forall|k: int| 0 <= k < idle.len() ==> #[trigger] idle[k] != "/"@[0]
            &&& lacks(asleep, "/"@[0])
        }),
{
    reveal_strlit("W");
    reveal_strlit("I");
    reveal_strlit("S");
    reveal_strlit("/");
    lemma_dec(w);
    lemma_dec(i);
    lemma_dec(a);
    let working = dec(w) + "W"@;
    let idle = dec(i) + "I"@;
    let asleep = dec(a) + "S"@;
    let clause = working + "/"@ + (idle + "/"@ + asleep);
    lemma_marked_chars(dec(w), 'W');
    lemma_marked_chars(dec(i), 'I');
    lemma_marked_chars(dec(a), 'S');
    assert(working =~= dec(w).push('W'));
    assert(idle =~= dec(i).push('I'));
    assert(asleep =~= dec(a).push('S'));
    assert forall|k: int| 0 <= k < clause.len() implies !is_space(#[trigger] clause[k]) && clause[k]
        != 'g' by {
        let x = working.len() as int;
        let y = idle.len() as int;
        if k < x {
            assert(clause[k] == working[k]);
        } else if x < k < x + 1 + y {
            assert(clause[k] == idle[k - x - 1]);
        } else if k > x + 1 + y {
            assert(clause[k] == asleep[k - x - y - 2]);
        }
    }
}

proof fn lemma_marked_chars(d: Seq<char>, mark: char)
    requires
        all_digits(d),
        mark == 'W' || mark == 'I' || mark == 'S',
    ensures
        forall|k: int|
            0 <= k < d.push(mark).len() ==> {
                let c = #[trigger] d.push(mark)[k];
                c != '/' && c != 'g' && !is_space(c)
            },
{
    assert forall|k: int| 0 <= k < d.push(mark).len() implies {
        let c = #[trigger] d.push(mark)[k];
        c != '/' && c != 'g' && !is_space(c)
    } by {
        if k < d.len() {
            assert(is_digit(d[k]));
        }
    }
}

proof fn lemma_tail_chars(deep: Seq<char>, most: Seq<char>, ticks: Seq<char>)
    requires
        all_digits(deep),
        all_digits(most),
        all_digits(ticks),
    ensures
        lacks(
            "· mailbox depth "@ + deep + " (max "@ + most + ") · ticks-since-done "@ + ticks,
            'g',
        ),
{
    reveal_strlit("· mailbox depth ");
    reveal_strlit(" (max ");
    reveal_strlit(") · ticks-since-done ");
    let a = "· mailbox depth "@;
    let b = " (max "@;
    let c = ") · ticks-since-done "@;
    let s = a + deep + b + most + c + ticks;
    assert forall|k: int| 0 <= k < s.len() implies #[trigger] s[k] != 'g' by {
        let x = a.len() as int;
        let y = x + deep.len();
        let z = y + b.len();
        let u = z + most.len();
        let v = u + c.len();
        if k < x {
            assert(s[k] == a[k]);
        } else if k < y {
            assert(s[k] == deep[k - x]);
            assert(is_digit(deep[k - x]));
        } else if k < z {
            assert(s[k] == b[k - y]);
        } else if k < u {
            assert(s[k] == most[k - z]);
            assert(is_digit(most[k - z]));
        } else if k < v {
            assert(s[k] == c[k - u]);
        } else {
            assert(s[k] == ticks[k - v]);
            assert(is_digit(ticks[k - v]));
        }
    }
}

} // verus!
