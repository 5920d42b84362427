//! How values are written: JSON texts can be read again, what a call comes back with is written as
//! one JSON object, and lines, messages and names hold what they are about.
use crate::event::{EventView, KindView};
use crate::json::{
    control_digits, escaped, escaped_all, fields_text, items_text, json_quote, JsonView,
};
use crate::knowledge::ScoredEntry;
use crate::text::{dec, joined, number, number_of_dec};
use crate::tools::OutcomeView;
use vstd::prelude::*;

verus! {

// ---------------------------------------------------------------------------
// Quoted texts.
// ---------------------------------------------------------------------------

/// The character that a letter stands for behind a backslash.
pub open spec fn letter(c: char) -> char {
    if c == 'b' {
        '\u{8}'
    } else if c == 'f' {
        '\u{c}'
    } else if c == 'n' {
        '\n'
    } else if c == 'r' {
        '\r'
    } else if c == 't' {
        '\t'
    } else {
        c
    }
}

/// The value of a hexadecimal digit.
pub open spec fn digit(c: char) -> int {
    if '0' <= c && c <= '9' {
        c as int - '0' as int
    } else {
        c as int - 'a' as int + 10
    }
}

/// What a reader makes of the inside of a quoted text.
pub open spec fn plain(s: Seq<char>) -> Seq<char>
    decreases s.len(),
{
    if s.len() == 0 {
        Seq::empty()
    } else if s[0] != '\\' {
        seq![s[0]] + plain(s.skip(1))
    } else if s.len() >= 2 && s[1] != 'u' {
        seq![letter(s[1])] + plain(s.skip(2))
    } else if s.len() >= 6 {
        seq![(16 * digit(s[4]) + digit(s[5])) as char] + plain(s.skip(6))
    } else {
        Seq::empty()
    }
}

proof fn lemma_control(c: char)
    requires
        (c as int) < 32,
    ensures
        control_digits(c as int).len() == 2,
        (16 * digit(control_digits(c as int)[0]) + digit(control_digits(c as int)[1])) as char == c,
        control_digits(c as int)[0] as int >= 32,
        control_digits(c as int)[1] as int >= 32,
{
    let n = c as int;
    let d = n % 16;
    if d < 10 {
        let x = ('0' as int + d) as char;
        assert(x as int == 48 + d);
        assert(digit(x) == d);
    } else {
        let x = ('a' as int + d - 10) as char;
        assert(x as int == 97 + d - 10);
        assert(digit(x) == d);
    }
    assert(digit('0') == 0);
    assert(digit('1') == 1);
}

proof fn lemma_escape_reads(c: char, rest: Seq<char>)
    ensures
        plain(escaped(c) + rest) == seq![c] + plain(rest),
        forall|i: int| 0 <= i < escaped(c).len() ==> (#[trigger] escaped(c)[i]) as int >= 32,
        escaped(c).len() > 0,
{
    reveal_strlit("\\\"");
    reveal_strlit("\\\\");
    reveal_strlit("\\b");
    reveal_strlit("\\f");
    reveal_strlit("\\n");
    reveal_strlit("\\r");
    reveal_strlit("\\t");
    reveal_strlit("\\u00");
    let s = escaped(c) + rest;
    assert(s.skip(escaped(c).len() as int) =~= rest);
    if c == '"' || c == '\\' || c == '\u{8}' || c == '\u{c}' || c == '\n' || c == '\r' || c == '\t' {
        assert(s.skip(2) =~= rest);
        assert(s[0] == '\\' && letter(s[1]) == c);
    } else if (c as int) < 32 {
        lemma_control(c);
        assert(s.skip(6) =~= rest);
        assert(s[0] == '\\' && s[1] == 'u');
        assert(s[4] == control_digits(c as int)[0]);
        assert(s[5] == control_digits(c as int)[1]);
    } else {
        assert(s.skip(1) =~= rest);
        assert(s[0] == c);
    }
}

proof fn lemma_escape_front(c: char, text: Seq<char>)
    ensures
        escaped_all(seq![c] + text) == escaped(c) + escaped_all(text),
    decreases text.len(),
{
    let all = seq![c] + text;
    if text.len() == 0 {
        assert(all.drop_last() =~= Seq::empty());
        assert(all.last() == c);
        assert(escaped_all(all.drop_last()) =~= Seq::empty());
        assert(Seq::<char>::empty() + escaped(c) =~= escaped(c) + Seq::<char>::empty());
    } else {
        lemma_escape_front(c, text.drop_last());
        assert(all.drop_last() =~= seq![c] + text.drop_last());
        assert(all.last() == text.last());
        assert(escaped(c) + escaped_all(text.drop_last()) + escaped(text.last()) =~= escaped(c) + (
        escaped_all(text.drop_last()) + escaped(text.last())));
    }
}

/// A quoted text stands between two quotes, holds no control character, and a reader gets back what
/// was quoted.
pub proof fn quoted_texts_are_read_back(text: Seq<char>)
    ensures
        json_quote(text).len() >= 2,
        json_quote(text)[0] == '"',
        json_quote(text).last() == '"',
        plain(json_quote(text).subrange(1, json_quote(text).len() - 1)) == text,
        forall|i: int| 0 <= i < json_quote(text).len() ==> (#[trigger] json_quote(text)[i]) as int >= 32,
    decreases text.len(),
{
    reveal_strlit("\"");
    let inner = escaped_all(text);
    let whole = json_quote(text);
    assert(whole.subrange(1, whole.len() - 1) =~= inner);
    if text.len() > 0 {
        let rest = text.skip(1);
        assert(text =~= seq![text[0]] + rest);
        lemma_escape_front(text[0], rest);
        lemma_escape_reads(text[0], escaped_all(rest));
        quoted_texts_are_read_back(rest);
        let quoted = json_quote(rest);
        assert(quoted.subrange(1, quoted.len() - 1) =~= escaped_all(rest));
        assert(seq![text[0]] + rest =~= text);
        assert forall|i: int| 0 <= i < whole.len() implies (#[trigger] whole[i]) as int >= 32 by {
            if 0 < i < whole.len() - 1 {
                let head = escaped(text[0]);
                assert(whole[i] == inner[i - 1]);
                if i - 1 >= head.len() {
                    assert(inner[i - 1] == escaped_all(rest)[i - 1 - head.len()]);
                    assert(quoted[i - head.len()] == escaped_all(rest)[i - 1 - head.len()]);
                } else {
                    assert(inner[i - 1] == head[i - 1]);
                }
            }
        }
    }
}

// ---------------------------------------------------------------------------
// JSON texts.
// ---------------------------------------------------------------------------

proof fn lemma_join_one_more(parts: Seq<Seq<char>>, last: Seq<char>)
    ensures
        joined(parts.push(last), ","@) == (if parts.len() == 0 {
            last
        } else {
            joined(parts, ","@) + ","@ + last
        }),
{
    assert(parts.push(last).drop_last() =~= parts);
    assert(parts.push(last).last() == last);
}

/// An array is written between brackets, item by item, with a comma before each but the first.
pub proof fn arrays_are_written_item_by_item(items: Seq<JsonView>, last: JsonView)
    ensures
        JsonView::Array(Seq::empty()).text() == "[]"@,
        JsonView::Array(items.push(last)).text() == JsonView::Array(items).text().drop_last() + (
        if items.len() == 0 {
            ""@
        } else {
            ","@
        }) + last.text() + "]"@,
{
    reveal_strlit("[]");
    reveal_strlit("[");
    reveal_strlit("]");
    reveal_strlit("");
    assert(JsonView::Array(Seq::empty()).text() =~= "[]"@);
    assert(items.push(last).drop_last() =~= items);
    assert(items_text(items.push(last)) == items_text(items).push(last.text()));
    lemma_items_count(items);
    lemma_join_one_more(items_text(items), last.text());
    let before = JsonView::Array(items).text();
    assert(before.drop_last() =~= "["@ + joined(items_text(items), ","@));
    assert(JsonView::Array(items.push(last)).text() =~= before.drop_last() + (if items.len() == 0 {
        ""@
    } else {
        ","@
    }) + last.text() + "]"@);
}

proof fn lemma_items_count(items: Seq<JsonView>)
    ensures
        items_text(items).len() == items.len(),
    decreases items.len(),
{
    if items.len() > 0 {
        lemma_items_count(items.drop_last());
    }
}

proof fn lemma_fields_count(fields: Seq<(Seq<char>, JsonView)>)
    ensures
        fields_text(fields).len() == fields.len(),
    decreases fields.len(),
{
    if fields.len() > 0 {
        lemma_fields_count(fields.drop_last());
    }
}

/// An object is written between braces, field by field: the quoted key, a colon and the value, with
/// a comma before each field but the first.
pub proof fn objects_are_written_field_by_field(
    fields: Seq<(Seq<char>, JsonView)>,
    key: Seq<char>,
    value: JsonView,
)
    ensures
        JsonView::Object(Seq::empty()).text() == "{}"@,
        JsonView::Object(fields.push((key, value))).text() == JsonView::Object(
            fields,
        ).text().drop_last() + (if fields.len() == 0 {
            ""@
        } else {
            ","@
        }) + json_quote(key) + ":"@ + value.text() + "}"@,
{
    reveal_strlit("{}");
    reveal_strlit("{");
    reveal_strlit("}");
    reveal_strlit("");
    assert(JsonView::Object(Seq::empty()).text() =~= "{}"@);
    let more = fields.push((key, value));
    let pair = json_quote(key) + ":"@ + value.text();
    assert(more.drop_last() =~= fields);
    assert(fields_text(more) == fields_text(fields).push(pair));
    lemma_fields_count(fields);
    lemma_join_one_more(fields_text(fields), pair);
    let before = JsonView::Object(fields).text();
    assert(before.drop_last() =~= "{"@ + joined(fields_text(fields), ","@));
    assert(JsonView::Object(more).text() =~= before.drop_last() + (if fields.len() == 0 {
        ""@
    } else {
        ","@
    }) + json_quote(key) + ":"@ + value.text() + "}"@);
}

/// The words of JSON stand for themselves, a text is quoted, and a number has its digits.
pub proof fn values_are_written_as_they_are(b: bool, n: u64, text: Seq<char>)
    ensures
        JsonView::Null.text() == "null"@,
        b ==> JsonView::Bool(b).text() == "true"@,
        !b ==> JsonView::Bool(b).text() == "false"@,
        number(JsonView::number(n).text(), u64::MAX as nat) == Some(n as nat),
        JsonView::Text(text).text() == json_quote(text),
{
    number_of_dec(n as nat, u64::MAX as nat);
}

// ---------------------------------------------------------------------------
// What a call comes back with.
// ---------------------------------------------------------------------------

/// The fields of what a call comes back with.
pub open spec fn told_fields(told: OutcomeView) -> Seq<(Seq<char>, JsonView)> {
    let status = ("status"@, JsonView::Text(told.word()));
    match told {
        OutcomeView::Accepted { result } => seq![status, ("result"@, result)],
        OutcomeView::Rejected { code, message, details: None } => seq![
            status,
            ("code"@, JsonView::Text(code)),
            ("message"@, JsonView::Text(message)),
        ],
        OutcomeView::Rejected { code, message, details: Some(d) } => seq![
            status,
            ("code"@, JsonView::Text(code)),
            ("message"@, JsonView::Text(message)),
            ("details"@, d),
        ],
        OutcomeView::Invalid { code, message } => seq![
            status,
            ("code"@, JsonView::Text(code)),
            ("message"@, JsonView::Text(message)),
        ],
    }
}

/// Whether a text needs no escape.
spec fn bare(s: Seq<char>) -> bool {
    forall|i: int|
        0 <= i < s.len() ==> (#[trigger] s[i]) as int >= 32 && s[i] != '"' && s[i] != '\\'
}

proof fn lemma_bare(s: Seq<char>)
    requires
        bare(s),
    ensures
        escaped_all(s) == s,
    decreases s.len(),
{
    if s.len() > 0 {
        assert(bare(s.drop_last()));
        lemma_bare(s.drop_last());
        assert(s.last() as int >= 32);
        assert(escaped(s.last()) == seq![s.last()]);
        assert(s.drop_last() + seq![s.last()] =~= s);
    } else {
        assert(s =~= Seq::empty());
    }
}

proof fn lemma_status(word: Seq<char>)
    requires
        bare(word),
    ensures
        JsonView::Object(seq![("status"@, JsonView::Text(word))]).text() == "{\"status\":\""@ + word
            + "\"}"@,
{
    reveal_strlit("status");
    reveal_strlit("{\"status\":\"");
    reveal_strlit("\"}");
    reveal_strlit("\"");
    reveal_strlit(":");
    reveal_strlit("{}");
    reveal_strlit("}");
    reveal_strlit("");
    lemma_bare("status"@);
    lemma_bare(word);
    let none = Seq::<(Seq<char>, JsonView)>::empty();
    objects_are_written_field_by_field(none, "status"@, JsonView::Text(word));
    assert(none.push(("status"@, JsonView::Text(word))) =~= seq![
        ("status"@, JsonView::Text(word)),
    ]);
    assert("{}"@.drop_last() + ""@ + json_quote("status"@) + ":"@ + json_quote(word) + "}"@
        =~= "{\"status\":\""@ + word + "\"}"@);
}

/// What a call comes back with is written as one JSON object: the word for how it went, and the
/// result, or the code, the message and the details.
#[verifier::rlimit(60)]
#[verifier::spinoff_prover]
pub proof fn outcomes_are_written_as_objects(told: OutcomeView)
    ensures
        told.content() == JsonView::Object(told_fields(told)).text(),
        told is Accepted ==> told.word() == "ok"@,
        told is Rejected ==> told.word() == "rejected"@,
        told is Invalid ==> told.word() == "invalid"@,
{
    reveal_strlit("ok");
    reveal_strlit("rejected");
    reveal_strlit("invalid");
    reveal_strlit("result");
    reveal_strlit("code");
    reveal_strlit("message");
    reveal_strlit("details");
    reveal_strlit("}");
    reveal_strlit("\"");
    reveal_strlit(":");
    reveal_strlit(",");
    reveal_strlit("\"}");
    reveal_strlit("{\"status\":\"");
    reveal_strlit("{\"status\":\"ok\",\"result\":");
    reveal_strlit("{\"status\":\"rejected\",\"code\":");
    reveal_strlit("{\"status\":\"invalid\",\"code\":");
    reveal_strlit(",\"message\":");
    reveal_strlit(",\"details\":");
    reveal_strlit("\",\"code\":");
    assert("{\"status\":\"rejected\",\"code\":"@ =~= "{\"status\":\""@ + "rejected"@
        + "\",\"code\":"@);
    assert("{\"status\":\"invalid\",\"code\":"@ =~= "{\"status\":\""@ + "invalid"@
        + "\",\"code\":"@);
    lemma_bare("result"@);
    lemma_bare("code"@);
    lemma_bare("message"@);
    lemma_bare("details"@);
    assert(",\"details\":"@ =~= ","@ + json_quote("details"@) + ":"@);
    let word = told.word();
    lemma_status(word);
    let first = seq![("status"@, JsonView::Text(word))];
    match told {
        OutcomeView::Accepted { result } => {
            objects_are_written_field_by_field(first, "result"@, result);
            assert(first.push(("result"@, result)) =~= told_fields(told));
            assert(JsonView::Object(told_fields(told)).text() =~= told.content());
        },
        OutcomeView::Rejected { code, message, details } => {
            lemma_code_and_message(word, code, message);
            let three = first.push(("code"@, JsonView::Text(code))).push(
                ("message"@, JsonView::Text(message)),
            );
            if let Some(d) = details {
                objects_are_written_field_by_field(three, "details"@, d);
                assert(three.push(("details"@, d)) =~= told_fields(told));
                assert(JsonView::Object(told_fields(told)).text() =~= told.content());
            } else {
                assert(three =~= told_fields(told));
                assert(JsonView::Object(told_fields(told)).text() =~= told.content());
            }
        },
        OutcomeView::Invalid { code, message } => {
            lemma_code_and_message(word, code, message);
            let three = first.push(("code"@, JsonView::Text(code))).push(
                ("message"@, JsonView::Text(message)),
            );
            assert(three =~= told_fields(told));
            assert(JsonView::Object(told_fields(told)).text() =~= told.content());
        },
    }
}

proof fn lemma_code_and_message(word: Seq<char>, code: Seq<char>, message: Seq<char>)
    requires
        bare(word),
    ensures
        JsonView::Object(
            seq![("status"@, JsonView::Text(word))].push(("code"@, JsonView::Text(code))).push(
                ("message"@, JsonView::Text(message)),
            ),
        ).text() == "{\"status\":\""@ + word + "\",\"code\":"@ + json_quote(code) + ",\"message\":"@
            + json_quote(message) + "}"@,
{
    reveal_strlit("code");
    reveal_strlit("message");
    reveal_strlit("}");
    reveal_strlit("\"");
    reveal_strlit(":");
    reveal_strlit(",");
    reveal_strlit("\"}");
    reveal_strlit("\",\"code\":");
    reveal_strlit(",\"message\":");
    lemma_bare("code"@);
    lemma_bare("message"@);
    lemma_status(word);
    let first = seq![("status"@, JsonView::Text(word))];
    let second = first.push(("code"@, JsonView::Text(code)));
    objects_are_written_field_by_field(first, "code"@, JsonView::Text(code));
    objects_are_written_field_by_field(second, "message"@, JsonView::Text(message));
    let a = JsonView::Object(first).text();
    let b = JsonView::Object(second).text();
    assert(b =~= "{\"status\":\""@ + word + "\",\"code\":"@ + json_quote(code) + "}"@);
}

// ---------------------------------------------------------------------------
// Lines and names.
// ---------------------------------------------------------------------------

/// A line on a hit tells which entry it is, of what kind and by whom it was written, how near it
/// is, and what it says.
pub proof fn hit_lines_tell_the_entry(hit: ScoredEntry)
    ensures
        ({
            let front = "- entry "@ + dec(hit.entry.id.0 as nat) + " ("@ + hit.entry.kind.name()
                + " by "@ + hit.entry.author.handle() + ", cos "@;
            let back = "): \""@ + hit.entry.text@ + "\""@;
            &&& front.is_prefix_of(hit.line())
            &&& back.is_suffix_of(hit.line())
            &&& hit.line().subrange(front.len() as int, hit.line().len() - back.len())
                == hit.score@
        }),
{
    let front = "- entry "@ + dec(hit.entry.id.0 as nat) + " ("@ + hit.entry.kind.name() + " by "@
        + hit.entry.author.handle() + ", cos "@;
    let back = "): \""@ + hit.entry.text@ + "\""@;
    assert(hit.line() =~= front + hit.score@ + back);
    assert(hit.line().subrange(front.len() as int, hit.line().len() - back.len()) =~= hit.score@);
}

/// A line on an event tells its number, what happened and who did it.
pub proof fn event_lines_tell_the_event(e: EventView)
    ensures
        ({
            let front = "- event "@ + dec(e.id.0 as nat) + " "@ + e.kind.name();
            let back = " ("@ + e.source.text() + ")"@;
            &&& front.is_prefix_of(e.line())
            &&& back.is_suffix_of(e.line())
            &&& e.line().len() == front.len() + back.len()
        }),
{
    let front = "- event "@ + dec(e.id.0 as nat) + " "@ + e.kind.name();
    let back = " ("@ + e.source.text() + ")"@;
    assert(e.line() =~= front + back);
}

spec fn tag_mark(s: Seq<char>) -> (nat, char, char, char) {
    (s.len(), s[0], s[1], s[6])
}

spec fn tagged(s: Seq<char>, n: nat, a: char, b: char, c: char) -> bool {
    tag_mark(s) == (n, a, b, c)
}

proof fn lemma_tags()
    ensures
        tagged("run_started"@, 11, 'r', 'u', 'a'),
        tagged("run_finished"@, 12, 'r', 'u', 'n'),
        tagged("cap_hit"@, 7, 'c', 'a', 't'),
        tagged("task_created"@, 12, 't', 'a', 'r'),
        tagged("task_claimed"@, 12, 't', 'a', 'l'),
        tagged("task_released"@, 13, 't', 'a', 'e'),
        tagged("task_unassigned"@, 15, 't', 'a', 'n'),
        tagged("task_completed"@, 14, 't', 'a', 'o'),
        tagged("task_cancelled"@, 14, 't', 'a', 'a'),
        tagged("message_sent"@, 12, 'm', 'e', 'e'),
        tagged("messages_delivered"@, 18, 'm', 'e', 'e'),
        tagged("knowledge_written"@, 17, 'k', 'n', 'd'),
        tagged("turn_completed"@, 14, 't', 'u', 'o'),
        tagged("agent_slept"@, 11, 'a', 'g', 's'),
        tagged("agent_parked"@, 12, 'a', 'g', 'p'),
        tagged("agent_woke"@, 10, 'a', 'g', 'w'),
        tagged("parallelism_changed"@, 19, 'p', 'a', 'e'),
        tagged("liveness_nudge"@, 14, 'l', 'i', 's'),
        tagged("team_formed"@, 11, 't', 'e', 'o'),
        tagged("team_members_set"@, 16, 't', 'e', 'e'),
        tagged("team_dissolved"@, 14, 't', 'e', 'i'),
        tagged("agent_respecialized"@, 19, 'a', 'g', 'r'),
        tagged("directive_issued"@, 16, 'd', 'i', 'i'),
        tagged("directive_fulfilled"@, 19, 'd', 'i', 'i'),
        tagged("directive_declined"@, 18, 'd', 'i', 'i'),
        tagged("context_degraded"@, 16, 'c', 'o', 't'),
{
    reveal_strlit("run_started");
    reveal_strlit("run_finished");
    reveal_strlit("cap_hit");
    reveal_strlit("task_created");
    reveal_strlit("task_claimed");
    reveal_strlit("task_released");
    reveal_strlit("task_unassigned");
    reveal_strlit("task_completed");
    reveal_strlit("task_cancelled");
    reveal_strlit("message_sent");
    reveal_strlit("messages_delivered");
    reveal_strlit("knowledge_written");
    reveal_strlit("turn_completed");
    reveal_strlit("agent_slept");
    reveal_strlit("agent_parked");
    reveal_strlit("agent_woke");
    reveal_strlit("parallelism_changed");
    reveal_strlit("liveness_nudge");
    reveal_strlit("team_formed");
    reveal_strlit("team_members_set");
    reveal_strlit("team_dissolved");
    reveal_strlit("agent_respecialized");
    reveal_strlit("directive_issued");
    reveal_strlit("directive_fulfilled");
    reveal_strlit("directive_declined");
    reveal_strlit("context_degraded");
}

/// An event's name says what happened: no two kinds share one.
#[verifier::rlimit(60)]
#[verifier::spinoff_prover]
pub proof fn names_say_what_happened(kind: KindView)
    ensures
        kind is RunStarted <==> kind.name() == "run_started"@,
        kind is RunFinished <==> kind.name() == "run_finished"@,
        kind is CapHit <==> kind.name() == "cap_hit"@,
        kind is TaskCreated <==> kind.name() == "task_created"@,
        kind is TaskClaimed <==> kind.name() == "task_claimed"@,
        kind is TaskReleased <==> kind.name() == "task_released"@,
        kind is TaskUnassigned <==> kind.name() == "task_unassigned"@,
        kind is TaskCompleted <==> kind.name() == "task_completed"@,
        kind is TaskCancelled <==> kind.name() == "task_cancelled"@,
        kind is MessageSent <==> kind.name() == "message_sent"@,
        kind is MessagesDelivered <==> kind.name() == "messages_delivered"@,
        kind is KnowledgeWritten <==> kind.name() == "knowledge_written"@,
        kind is TurnCompleted <==> kind.name() == "turn_completed"@,
        kind is AgentSlept <==> kind.name() == "agent_slept"@,
        kind is AgentParked <==> kind.name() == "agent_parked"@,
        kind is AgentWoke <==> kind.name() == "agent_woke"@,
        kind is ParallelismChanged <==> kind.name() == "parallelism_changed"@,
        kind is LivenessNudge <==> kind.name() == "liveness_nudge"@,
        kind is TeamFormed <==> kind.name() == "team_formed"@,
        kind is TeamMembersSet <==> kind.name() == "team_members_set"@,
        kind is TeamDissolved <==> kind.name() == "team_dissolved"@,
        kind is AgentRespecialized <==> kind.name() == "agent_respecialized"@,
        kind is DirectiveIssued <==> kind.name() == "directive_issued"@,
        kind is DirectiveFulfilled <==> kind.name() == "directive_fulfilled"@,
        kind is DirectiveDeclined <==> kind.name() == "directive_declined"@,
        kind is ContextDegraded <==> kind.name() == "context_degraded"@,
{
    lemma_tags();
    let met = tag_mark(kind.name());
    assert(met == tag_mark(kind.name()));
}

} // verus!
