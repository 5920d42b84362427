//! What the mock model sees of a request: its last prompt by sections, the turn so far, the tools on
//! offer, and which of the shown tasks are live.
use crate::context::SectionKind;
use crate::directive::{args_text, DirectiveView};
use crate::json::JsonView;
use crate::legible::{lemma_prefix, lemma_split};
use crate::mock::parse::{
    agent_of, board_of, claimed_of, directive_of, directives_of, fresh_of, live, live_tasks,
    message_of, outcome_tier, outcomes_of, recent_of, shows_work, task_of, utilization_of, value_of,
    work_count, ShownAgent, ShownBoard, ShownTask,
};
use crate::mock::rendered::{
    call_names, first_line, has_key, last_user, sections_of, status_of, suits, tool_map, turn_of,
    with_section, Shown,
};
use crate::text::{after_prefix, dec, is_digit, lemma_dec, trim, trim_end, trim_start};
use crate::tools::{OutcomeView, ToolDef};
use crate::wire::ChatMessage;
use vstd::prelude::*;

verus! {

// ---------------------------------------------------------------------------
// The prompt.
// ---------------------------------------------------------------------------

/// A line that opens a section.
pub open spec fn heads(line: Seq<char>) -> bool {
    after_prefix(line, "## "@) is Some
}

/// Lines without their blank ends.
pub open spec fn ended(ls: Seq<Seq<char>>) -> Seq<Seq<char>> {
    Seq::new(ls.len(), |i: int| trim_end(ls[i]))
}

/// A header opens a section that holds the lines up to the next header, in their order; the
/// sections before it stay as they are.
pub proof fn headers_open_sections(
    before: Seq<Seq<char>>,
    header: Seq<char>,
    body: Seq<Seq<char>>,
)
    requires
        forall|i: int| 0 <= i < body.len() ==> !heads(#[trigger] body[i]),
    ensures
        sections_of(before.push("## "@ + header) + body) == sections_of(before).push(
            (trim(header), ended(body)),
        ),
    decreases body.len(),
{
    let line = "## "@ + header;
    let all = before.push(line) + body;
    if body.len() == 0 {
        assert(all =~= before.push(line));
        assert(all.drop_last() =~= before);
        assert(all.last() == line);
        assert(line.take("## "@.len() as int) =~= "## "@);
        assert(line.skip("## "@.len() as int) =~= header);
        assert(after_prefix(line, "## "@) == Some(header));
        assert(ended(body) =~= Seq::empty());
    } else {
        let front = body.drop_last();
        assert forall|i: int| 0 <= i < front.len() implies !heads(#[trigger] front[i]) by {
            assert(front[i] == body[i]);
        }
        headers_open_sections(before, header, front);
        assert(all.drop_last() =~= before.push(line) + front);
        assert(all.last() == body.last());
        assert(!heads(body[body.len() - 1]));
        let s = sections_of(before).push((trim(header), ended(front)));
        assert(s.drop_last() =~= sections_of(before));
        assert(ended(front).push(trim_end(body.last())) =~= ended(body));
    }
}

/// Lines before the first header belong to no section.
pub proof fn lines_without_header_are_not_seen(ls: Seq<Seq<char>>)
    requires
        forall|i: int| 0 <= i < ls.len() ==> !heads(#[trigger] ls[i]),
    ensures
        sections_of(ls).len() == 0,
    decreases ls.len(),
{
    if ls.len() > 0 {
        let front = ls.drop_last();
        assert forall|i: int| 0 <= i < front.len() implies !heads(#[trigger] front[i]) by {
            assert(front[i] == ls[i]);
        }
        lines_without_header_are_not_seen(front);
        assert(!heads(ls[ls.len() - 1]));
    }
}

spec fn sized(s: Seq<char>, n: nat, c: char) -> bool {
    s.len() == n && s[n - 1] == c
}

proof fn lemma_titles()
    ensures
        sized("Goal"@, 4, 'l'),
        sized("Board digest"@, 12, 't'),
        sized("Claimed task"@, 12, 'k'),
        sized("Recent activity"@, 15, 'y'),
        sized("Knowledge retrievals"@, 20, 's'),
        sized("Fresh messages"@, 14, 's'),
        sized("Directives"@, 10, 's'),
        sized("Directive outcomes"@, 18, 's'),
        sized("Metrics digest"@, 14, 't'),
        sized("Recent events"@, 13, 's'),
{
    reveal_strlit("Goal");
    reveal_strlit("Board digest");
    reveal_strlit("Claimed task");
    reveal_strlit("Recent activity");
    reveal_strlit("Knowledge retrievals");
    reveal_strlit("Fresh messages");
    reveal_strlit("Directives");
    reveal_strlit("Directive outcomes");
    reveal_strlit("Metrics digest");
    reveal_strlit("Recent events");
}

/// A section that a prompt shows is read as what it is, and changes nothing else of what is seen.
pub proof fn sections_are_seen_as_what_they_are(w: Shown, kind: SectionKind, ls: Seq<Seq<char>>)
    ensures
        ({
            let seen = with_section(w, (kind.title(), ls));
            &&& seen.goal == if kind is Goal {
                first_line(ls, 0)
            } else {
                w.goal
            }
            &&& seen.board == if kind is BoardDigest {
                Some(board_of(ls))
            } else {
                w.board
            }
            &&& seen.claimed == if kind is ClaimedTask {
                claimed_of(ls)
            } else {
                w.claimed
            }
            &&& seen.recent == if kind is RecentActivity {
                Some(recent_of(ls))
            } else {
                w.recent
            }
            &&& seen.fresh == if kind is FreshMessages {
                fresh_of(ls)
            } else {
                w.fresh
            }
            &&& seen.directives == if kind is Directives {
                directives_of(ls)
            } else {
                w.directives
            }
            &&& seen.outcomes == if kind is DirectiveOutcomes {
                Some(outcomes_of(ls))
            } else {
                w.outcomes
            }
            &&& seen.utilization == if kind is MetricsDigest {
                utilization_of(ls, 0, false)
            } else {
                w.utilization
            }
            &&& seen.turn == w.turn
            &&& seen.tools == w.tools
        }),
{
    lemma_titles();
}

/// The goal is the first line that is not empty.
pub proof fn goals_are_the_first_words(ls: Seq<Seq<char>>, i: int)
    requires
        0 <= i,
    ensures
        match first_line(ls, i) {
            Some(g) => exists|k: int|
                i <= k < ls.len() && #[trigger] ls[k] == g && g.len() > 0 && forall|j: int|
                    i <= j < k ==> (#[trigger] ls[j]).len() == 0,
            None => forall|j: int| i <= j < ls.len() ==> (#[trigger] ls[j]).len() == 0,
        },
    decreases ls.len() - i,
{
    if i < ls.len() && ls[i].len() == 0 {
        goals_are_the_first_words(ls, i + 1);
        if let Some(g) = first_line(ls, i) {
            let k = choose|k: int|
                i + 1 <= k < ls.len() && #[trigger] ls[k] == g && g.len() > 0 && forall|j: int|
                    i + 1 <= j < k ==> (#[trigger] ls[j]).len() == 0;
            assert forall|j: int| i <= j < k implies (#[trigger] ls[j]).len() == 0 by {}
            assert(ls[k] == g);
        }
    } else if i < ls.len() {
        assert(ls[i] == ls[i]);
    }
}

/// The prompt is the last message of the user.
pub proof fn prompts_are_the_last_word_of_the_user(messages: Seq<ChatMessage>, n: int)
    requires
        0 <= n <= messages.len(),
    ensures
        match last_user(messages, n) {
            Some(i) => 0 <= i < n && messages[i] is User && forall|j: int|
                i < j < n ==> !((#[trigger] messages[j]) is User),
            None => forall|j: int| 0 <= j < n ==> !((#[trigger] messages[j]) is User),
        },
    decreases n,
{
    if n > 0 && !(messages[n - 1] is User) {
        prompts_are_the_last_word_of_the_user(messages, n - 1);
    }
}

// ---------------------------------------------------------------------------
// The turn.
// ---------------------------------------------------------------------------

/// What a turn has seen adds up message by message: the calls of the assistant by their names, in
/// their order, and one status for each outcome.
pub proof fn turns_see_every_message(a: Seq<ChatMessage>, b: Seq<ChatMessage>)
    ensures
        turn_of(a + b).called == turn_of(a).called + turn_of(b).called,
        turn_of(a + b).statuses == turn_of(a).statuses + turn_of(b).statuses,
        turn_of(a + b).outcomes == turn_of(a).outcomes + turn_of(b).outcomes,
        turn_of(b).outcomes == turn_of(b).statuses.len(),
    decreases b.len(),
{
    if b.len() == 0 {
        assert(a + b =~= a);
        assert(turn_of(a).called + turn_of(b).called =~= turn_of(a).called);
        assert(turn_of(a).statuses + turn_of(b).statuses =~= turn_of(a).statuses);
    } else {
        let front = b.drop_last();
        turns_see_every_message(a, front);
        assert((a + b).drop_last() =~= a + front);
        assert((a + b).last() == b.last());
        let ta = turn_of(a);
        let tb = turn_of(front);
        match b.last() {
            ChatMessage::Assistant { tool_calls: Some(calls), .. } => {
                assert(ta.called + tb.called + call_names(calls@) =~= ta.called + (tb.called
                    + call_names(calls@)));
            },
            ChatMessage::Tool { content, .. } => {
                let s = status_of(crate::mock::rendered::status_text(content@));
                assert((ta.statuses + tb.statuses).push(s) =~= ta.statuses + tb.statuses.push(s));
            },
            _ => {},
        }
    }
}

/// A message of the assistant adds the calls that it makes, one of a tool adds an outcome, and no
/// other message adds anything.
pub proof fn messages_add_what_they_hold(m: ChatMessage)
    ensures
        ({
            let t = turn_of(seq![m]);
            &&& m matches ChatMessage::Assistant { tool_calls: Some(calls), .. } ==> t.called.len()
                == calls@.len() && forall|i: int|
                0 <= i < calls@.len() ==> #[trigger] t.called[i] == calls@[i].name@
            &&& m is Tool <==> t.outcomes == 1
            &&& !(m is Tool) ==> t.outcomes == 0
            &&& !(m is Assistant) ==> t.called.len() == 0
        }),
{
    let one = seq![m];
    assert(one.drop_last() =~= Seq::empty());
    assert(one.last() == m);
    reveal_with_fuel(turn_of, 2);
    let t = turn_of(one);
    if let ChatMessage::Assistant { tool_calls: Some(calls), .. } = m {
        assert(t.called =~= call_names(calls@));
    }
}

/// The word for how a call went tells it.
pub proof fn statuses_tell_how_calls_went(told: OutcomeView)
    ensures
        told is Accepted <==> status_of(Some(told.word())) is Accepted,
        told is Rejected <==> status_of(Some(told.word())) is Rejected,
        told is Invalid <==> status_of(Some(told.word())) is Invalid,
        status_of(None) is Unknown,
{
    reveal_strlit("ok");
    reveal_strlit("rejected");
    reveal_strlit("invalid");
    assert("ok"@.len() == 2);
    assert("rejected"@.len() == 8);
    assert("invalid"@.len() == 7);
}

// ---------------------------------------------------------------------------
// Tools and tasks.
// ---------------------------------------------------------------------------

/// The place holds the last tool of a name.
pub open spec fn latest(tools: Seq<ToolDef>, name: Seq<char>, i: int) -> bool {
    &&& 0 <= i < tools.len()
    &&& tools[i]@.name == name
    &&& forall|j: int| i < j < tools.len() ==> (#[trigger] tools[j])@.name != name
}

/// A tool is on offer if the request holds one of that name, the last of them if there are more.
pub proof fn tools_on_offer_are_in_the_request(tools: Seq<ToolDef>, name: Seq<char>)
    ensures
        tool_map(tools).dom().contains(name) <==> exists|i: int| latest(tools, name, i),
        forall|i: int| #[trigger]
            latest(tools, name, i) ==> tool_map(tools)[name] == tools[i]@.parameters,
    decreases tools.len(),
{
    if tools.len() > 0 {
        let front = tools.drop_last();
        let n = tools.len() - 1;
        tools_on_offer_are_in_the_request(front, name);
        if tools.last()@.name == name {
            assert(latest(tools, name, n));
            assert forall|i: int| #[trigger] latest(tools, name, i) implies i == n by {
                if i < n {
                    assert(tools[n]@.name != name);
                }
            }
        } else {
            assert forall|i: int| latest(tools, name, i) <==> #[trigger] latest(
                front,
                name,
                i,
            ) by {
                lemma_latest(tools, name, i);
            }
            assert forall|i: int| #[trigger] latest(tools, name, i) implies tool_map(tools)[name]
                == tools[i]@.parameters by {
                lemma_latest(tools, name, i);
                assert(latest(front, name, i));
            }
            if exists|i: int| latest(tools, name, i) {
                let i = choose|i: int| latest(tools, name, i);
                lemma_latest(tools, name, i);
                assert(latest(front, name, i));
            }
            if exists|i: int| latest(front, name, i) {
                let i = choose|i: int| latest(front, name, i);
                lemma_latest(tools, name, i);
                assert(latest(tools, name, i));
            }
        }
    }
}

proof fn lemma_latest(tools: Seq<ToolDef>, name: Seq<char>, i: int)
    requires
        tools.len() > 0,
        tools.last()@.name != name,
    ensures
        latest(tools, name, i) <==> latest(tools.drop_last(), name, i),
{
    let front = tools.drop_last();
    if latest(tools, name, i) {
        assert(i != tools.len() - 1);
        assert forall|j: int| i < j < front.len() implies (#[trigger] front[j])@.name != name by {
            assert(tools[j]@.name != name);
        }
    }
    if latest(front, name, i) {
        assert forall|j: int| i < j < tools.len() implies (#[trigger] tools[j])@.name != name by {
            if j < front.len() {
                assert(front[j]@.name != name);
            }
        }
    }
}

/// Arguments suit a schema if none is missing that it requires and none is there that it does not
/// know.
pub proof fn suiting_arguments_are_whole_and_known(
    fields: Seq<(Seq<char>, JsonView)>,
    required: Seq<JsonView>,
    properties: Seq<(Seq<char>, JsonView)>,
    schema: JsonView,
    key: Seq<char>,
    i: int,
)
    requires
        schema.get("required"@) == Some(JsonView::Array(required)),
        schema.get("properties"@) == Some(JsonView::Object(properties)),
    ensures
        suits(fields, schema) && required.contains(JsonView::Text(key)) ==> has_key(fields, key),
        suits(fields, schema) && 0 <= i < fields.len() ==> has_key(properties, fields[i].0),
        required.len() == 0 && fields.len() == 0 ==> suits(fields, schema),
{
    if suits(fields, schema) && required.contains(JsonView::Text(key)) {
        let k = choose|k: int| 0 <= k < required.len() && required[k] == JsonView::Text(key);
        assert(required[k].string() == Some(key));
    }
}

/// The live tasks are those that are open or claimed, all of them, in their order.
pub proof fn live_tasks_are_open_or_claimed(tasks: Seq<ShownTask>, t: ShownTask)
    ensures
        live_tasks(tasks).contains(t) <==> tasks.contains(t) && (t.state is Open || t.state is Claimed),
        live_tasks(tasks.push(t)) == if t.state is Open || t.state is Claimed {
            live_tasks(tasks).push(t)
        } else {
            live_tasks(tasks)
        },
    decreases tasks.len(),
{
    assert(tasks.push(t).drop_last() =~= tasks);
    if tasks.len() > 0 {
        let front = tasks.drop_last();
        live_tasks_are_open_or_claimed(front, t);
        let rest = live_tasks(front);
        let all = live_tasks(tasks);
        if all.contains(t) {
            let k = choose|k: int| 0 <= k < all.len() && all[k] == t;
            if k < rest.len() {
                assert(rest[k] == t);
                let j = choose|j: int| 0 <= j < front.len() && front[j] == t;
                assert(tasks[j] == t);
            } else {
                assert(tasks[tasks.len() - 1] == t);
            }
        }
        if tasks.contains(t) && live(t) {
            let k = choose|k: int| 0 <= k < tasks.len() && tasks[k] == t;
            if k < front.len() {
                assert(front[k] == t);
                let j = choose|j: int| 0 <= j < rest.len() && rest[j] == t;
                assert(all[j] == t);
            } else {
                assert(all[all.len() - 1] == t);
            }
        }
    }
}

// ---------------------------------------------------------------------------
// Lines.
// ---------------------------------------------------------------------------

/// Every line that can be read is: one more message, directive, task or bit of work behind those of
/// the lines before; a line that cannot be read adds nothing.
pub proof fn every_shown_line_is_read(ls: Seq<Seq<char>>, line: Seq<char>)
    ensures
        fresh_of(Seq::empty()).len() == 0,
        message_of(line) matches Some(m) ==> fresh_of(ls.push(line)) == fresh_of(ls).push(m),
        message_of(line) is None ==> fresh_of(ls.push(line)) == fresh_of(ls),
        directives_of(Seq::empty()).len() == 0,
        directive_of(line) matches Some(d) ==> directives_of(ls.push(line)) == directives_of(
            ls,
        ).push(d),
        directive_of(line) is None ==> directives_of(ls.push(line)) == directives_of(ls),
        work_count(Seq::empty()) == 0,
        shows_work(line) ==> work_count(ls.push(line)) == work_count(ls) + 1,
        !shows_work(line) ==> work_count(ls.push(line)) == work_count(ls),
        board_of(Seq::empty()).tasks.len() == 0,
        (after_prefix(line, "- task "@) matches Some(rest) && task_of(rest) matches Some(t)
            && board_of(ls.push(line)) == (ShownBoard {
            tasks: board_of(ls).tasks.push(t),
            agents: board_of(ls).agents,
        })) || board_of(ls.push(line)).tasks == board_of(ls).tasks,
        (after_prefix(line, "- task "@) matches Some(rest) && task_of(rest) is Some)
            ==> board_of(ls.push(line)).tasks.len() == board_of(ls).tasks.len() + 1,
{
    assert(ls.push(line).drop_last() =~= ls);
    assert(ls.push(line).last() == line);
}

/// The agents under a heading are read line by line, up to the first line that is not about one.
pub proof fn every_shown_agent_is_read(ls: Seq<Seq<char>>, i: int, n: int, agents: Seq<ShownAgent>)
    requires
        0 <= i <= n <= ls.len(),
        agents.len() == n - i,
        forall|j: int|
            i <= j < n ==> after_prefix(#[trigger] ls[j], "utilization:"@) is None && (
            after_prefix(trim_start(ls[j]), "- "@) matches Some(rest) && agent_of(rest) == Some(
                agents[j - i],
            )),
        n < ls.len() ==> after_prefix(ls[n], "utilization:"@) is None && after_prefix(
            trim_start(ls[n]),
            "- "@,
        ) is None,
    ensures
        utilization_of(ls, i, true) == agents,
        i > 0 && after_prefix(ls[i - 1], "utilization:"@) is Some ==> utilization_of(
            ls,
            i - 1,
            false,
        ) == agents,
    decreases n - i,
{
    if i < n {
        let rest = agents.skip(1);
        assert forall|j: int| i + 1 <= j < n implies after_prefix(
            #[trigger] ls[j],
            "utilization:"@,
        ) is None && (after_prefix(trim_start(ls[j]), "- "@) matches Some(rest2) && agent_of(rest2)
            == Some(rest[j - (i + 1)])) by {
            assert(rest[j - (i + 1)] == agents[j - i]);
        }
        every_shown_agent_is_read(ls, i + 1, n, rest);
        assert(after_prefix(ls[i], "utilization:"@) is None);
        assert(seq![agents[0]] + rest =~= agents);
    } else {
        assert(agents =~= Seq::empty());
    }
}

/// A report on a directive shows its tier.
pub proof fn reports_show_their_tier(d: DirectiveView)
    ensures
        outcome_tier(d.report()) == Some(d.tier.name()),
{
    reveal_strlit("- directive ");
    reveal_strlit(" [");
    reveal_strlit(" ");
    reveal_strlit("[");
    reveal_strlit("]");
    reveal_strlit("] ");
    reveal_strlit("judgment");
    reveal_strlit("mechanical");
    let id = dec(d.id.0 as nat);
    let tier = d.tier.name();
    let tail = " "@ + d.kind.name() + "{"@ + args_text(d.kind, d.args) + "} — "@ + d.state.outcome();
    let inner = tier + "]"@ + tail;
    let lead = id + " "@;
    let rest = lead + "["@ + inner;
    assert(d.report() =~= "- directive "@ + rest);
    lemma_prefix("- directive "@, rest);
    lemma_dec(d.id.0 as nat);
    assert forall|i: int| 0 <= i < lead.len() implies #[trigger] lead[i] != '[' by {
        if i < id.len() {
            assert(lead[i] == id[i]);
            assert(is_digit(id[i]));
        }
    }
    lemma_split(lead, "["@, inner);
    assert forall|i: int| 0 <= i < tier.len() implies #[trigger] tier[i] != ']' by {}
    lemma_split(tier, "]"@, tail);
}

/// An argument is found under its key, the first of that name.
pub proof fn arguments_are_found_by_key(
    pairs: Seq<(Seq<char>, Seq<char>)>,
    key: Seq<char>,
    i: int,
)
    requires
        0 <= i,
    ensures
        match value_of(pairs, key, i) {
            Some(v) => exists|k: int|
                i <= k < pairs.len() && #[trigger] pairs[k] == (key, v) && forall|j: int|
                    i <= j < k ==> (#[trigger] pairs[j]).0 != key,
            None => forall|j: int| i <= j < pairs.len() ==> (#[trigger] pairs[j]).0 != key,
        },
    decreases pairs.len() - i,
{
    if i < pairs.len() {
        if pairs[i].0 == key {
            assert(pairs[i] == (key, pairs[i].1));
        } else {
            arguments_are_found_by_key(pairs, key, i + 1);
            if let Some(v) = value_of(pairs, key, i) {
                let k = choose|k: int|
                    i + 1 <= k < pairs.len() && #[trigger] pairs[k] == (key, v) && forall|j: int|
                        i + 1 <= j < k ==> (#[trigger] pairs[j]).0 != key;
                assert(pairs[k] == (key, v));
                assert forall|j: int| i <= j < k implies (#[trigger] pairs[j]).0 != key by {}
            }
        }
    }
}

} // verus!
