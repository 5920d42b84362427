//! How the mock endpoint answers, told from what is sent to it.
use crate::agent::{AgentId, Role};
use crate::context::TokenCounter;
use crate::json::{bytes_json, json_fault, JsonView};
use crate::mock::arc::{arc_reply, call_id};
use crate::mock::scenario::{
    play, response_at, say_reply, script_at, script_of, Response, Say, Script, Selector,
};
use crate::mock::server::{
    body_refusal, call_tokens, chat_refusal, conversation_tokens, embeddings_refusal, header_of, input_tokens,
    line_tokens, reply_id, token_array, vector_len, EmbeddingRequest, Refused,
};
use crate::text::{dec, number_of_dec, trim};
use crate::wire::{CallView, ChatRequest, FinishReason, LineView};
use vstd::prelude::*;

verus! {

// ---------------------------------------------------------------------------
// Refusals.
// ---------------------------------------------------------------------------

/// A refusal blames this part of the request.
pub open spec fn blames(r: Option<Refused>, part: Seq<char>) -> bool {
    r matches Some(Refused::BadRequest { param, .. }) && param == Some(part)
}

/// A chat request is answered exactly if it names a model, has a message, and asks neither for a stream
/// nor for other than one choice. A model without a name is not found; anything else is blamed on the
/// part that is wrong, the first of them.
pub proof fn good_chats_are_answered(req: ChatRequest)
    ensures
        ({
            let r = chat_refusal(req);
            let named = req.model@.len() > 0;
            let spoken = req.messages@.len() > 0;
            let whole = req.stream != Some(true);
            let one = req.n is None || req.n == Some(1u32);
            &&& r is None <==> named && spoken && whole && one
            &&& !named ==> (r matches Some(Refused::NotFound { code, .. }) && code == Some(
                "model_not_found"@,
            ))
            &&& named && !spoken ==> blames(r, "messages"@)
            &&& named && spoken && !whole ==> blames(r, "stream"@)
            &&& named && spoken && whole && !one ==> blames(r, "n"@)
        }),
{
}

/// A request for embeddings is answered exactly if it names a model, has a text, and does not ask for
/// vectors without dimensions. The vectors are as long as asked for.
pub proof fn good_embeddings_are_answered(req: EmbeddingRequest)
    ensures
        ({
            let r = embeddings_refusal(req);
            let named = req.model@.len() > 0;
            let long = req.dimensions != Some(0u32);
            let given = req.inputs@.len() > 0;
            &&& r is None <==> named && long && given
            &&& !named ==> (r matches Some(Refused::NotFound { code, .. }) && code == Some(
                "model_not_found"@,
            ))
            &&& named && !long ==> blames(r, "dimensions"@)
            &&& named && long && !given ==> blames(r, "input"@)
            &&& req.dimensions matches Some(n) ==> vector_len(req) == n
            &&& req.dimensions is None ==> vector_len(req)
                == crate::knowledge::DEFAULT_DIMENSIONS
        }),
{
}

/// An input of numbers, or of lists, is one of tokens; a text and a list of texts are not.
pub proof fn texts_are_not_tokens(input: JsonView)
    ensures
        input is Text ==> !token_array(input),
        input matches JsonView::Array(items) ==> (token_array(input) <==> items.len() > 0 && (
        items[0] is Number || items[0] is Array)),
        (input matches JsonView::Array(items) && items.len() > 0 && items[0] is Text)
            ==> !token_array(input),
{
}

// ---------------------------------------------------------------------------
// Envelopes and tokens.
// ---------------------------------------------------------------------------

/// A number in a header is read, also with white space around it; a header that is missing counts as
/// zero.
pub proof fn header_numbers_are_read(n: u64, text: Seq<char>)
    requires
        trim(text) == dec(n as nat),
    ensures
        header_of(Some(text)) == n,
        header_of(None) == 0,
{
    number_of_dec(n as nat, u64::MAX as nat);
}

/// The id of a reply tells the seed, who asks and the number of the call; without a name it is `anon`.
pub proof fn reply_ids_tell_who_asks(u: crate::agent::UserView, n: u64, seed: u64)
    requires
        u.valid(),
    ensures
        reply_id(Some(u.text()), n, seed) == "chatcmpl-"@ + dec(seed as nat) + "-"@
            + u.who().handle() + "-"@ + dec(n as nat),
        reply_id(None, n, seed) == "chatcmpl-"@ + dec(seed as nat) + "-"@ + "anon"@ + "-"@ + dec(
            n as nat,
        ),
{
    crate::agent::user_reads_back(u);
    lemma_spoken(u);
}

proof fn lemma_spoken(u: crate::agent::UserView)
    ensures
        u.text().len() > 0,
{
    reveal_strlit("orchestrator");
    reveal_strlit("agent-");
    reveal_strlit("meta-");
}

/// The tokens of a conversation are those of its messages: of their texts, and of the names and
/// arguments of the calls in them.
pub proof fn tokens_are_counted_message_by_message<T: TokenCounter>(
    c: T,
    lines: Seq<LineView>,
    line: LineView,
    calls: Seq<CallView>,
    call: CallView,
    text: Seq<char>,
    id: Seq<char>,
)
    ensures
        conversation_tokens(c, lines.push(line), lines.len() as int + 1) == conversation_tokens(
            c,
            lines,
            lines.len() as int,
        ) + line_tokens(c, line),
        conversation_tokens(c, lines, 0) == 0,
        line_tokens(c, LineView::System(text)) == c.tokens(text),
        line_tokens(c, LineView::User(text)) == c.tokens(text),
        line_tokens(c, LineView::Tool(text, id)) == c.tokens(text),
        line_tokens(c, LineView::Assistant(Some(text), None)) == c.tokens(text),
        line_tokens(c, LineView::Assistant(None, Some(calls.push(call)))) == line_tokens(
            c,
            LineView::Assistant(None, Some(calls)),
        ) + c.tokens(call.name) + c.tokens(call.arguments),
        line_tokens(c, LineView::Assistant(Some(text), Some(calls))) == c.tokens(text)
            + line_tokens(c, LineView::Assistant(None, Some(calls))),
{
    lemma_same_lines(c, lines, lines.push(line), lines.len() as int);
    lemma_same_calls(c, calls, calls.push(call), calls.len() as int);
}

proof fn lemma_same_lines<T: TokenCounter>(c: T, a: Seq<LineView>, b: Seq<LineView>, n: int)
    requires
        n <= a.len(),
        n <= b.len(),
        forall|i: int| 0 <= i < n ==> #[trigger] a[i] == b[i],
    ensures
        conversation_tokens(c, a, n) == conversation_tokens(c, b, n),
    decreases n,
{
    if n > 0 {
        lemma_same_lines(c, a, b, n - 1);
        assert(a[n - 1] == b[n - 1]);
    }
}

proof fn lemma_same_calls<T: TokenCounter>(c: T, a: Seq<CallView>, b: Seq<CallView>, n: int)
    requires
        n <= a.len(),
        n <= b.len(),
        forall|i: int| 0 <= i < n ==> #[trigger] a[i] == b[i],
    ensures
        call_tokens(c, a, n) == call_tokens(c, b, n),
    decreases n,
{
    if n > 0 {
        lemma_same_calls(c, a, b, n - 1);
        assert(a[n - 1] == b[n - 1]);
    }
}

/// The tokens of texts to embed are those of each of them.
pub proof fn inputs_are_counted_one_by_one<T: TokenCounter>(c: T, inputs: Seq<String>, n: int)
    requires
        0 <= n < inputs.len(),
    ensures
        input_tokens(c, inputs, n + 1) == input_tokens(c, inputs, n) + c.tokens(inputs[n]@),
        input_tokens(c, inputs, 0) == 0,
{
}

// ---------------------------------------------------------------------------
// Scripts.
// ---------------------------------------------------------------------------

/// A script answers its calls in order, each once, and behind them goes round what it repeats; where it
/// repeats nothing it leaves the rest to the built-in model.
pub proof fn scripts_answer_in_order(script: Script, n: u64)
    requires
        n <= usize::MAX,
    ensures
        n < script.responses@.len() ==> response_at(script, n) == Some(script.responses@[n as int]),
        n >= script.responses@.len() && script.repeat@.len() == 0 ==> response_at(script, n) is None,
        script.responses@.len() <= n < script.responses@.len() + script.repeat@.len()
            ==> response_at(script, n) == Some(script.repeat@[n - script.responses@.len()]),
{
    let k = n - script.responses@.len();
    let r = script.repeat@.len() as int;
    if 0 <= k < r {
        assert(k % r == k) by (nonlinear_arith)
            requires
                0 <= k < r,
        ;
    }
}

/// A script is for its own agent, or for every agent of its role; the first that is for an agent alone
/// goes first, then the first that is for its role. An agent without a script has none.
pub proof fn scripts_are_found_by_agent(scripts: Seq<Script>, id: AgentId, k: int)
    ensures
        ({
            let handle = id.handle();
            let role = id.spec_role();
            let found = script_of(scripts, handle, role);
            &&& found matches Some(i) ==> 0 <= i < scripts.len() && match scripts[i].agent {
                Selector::Exact(text) => text@ == handle,
                Selector::TeamWildcard => id is Team,
                Selector::MetaWildcard => id is Meta,
            }
            &&& found is None && 0 <= k < scripts.len() ==> match scripts[k].agent {
                Selector::Exact(text) => text@ != handle,
                Selector::TeamWildcard => !(id is Team),
                Selector::MetaWildcard => !(id is Meta),
            }
            &&& (found matches Some(i) && !(scripts[i].agent is Exact) && 0 <= k < scripts.len())
                ==> !(scripts[k].agent matches Selector::Exact(text) && text@ == handle)
        }),
{
    lemma_script(scripts, id.handle(), id.spec_role(), true, 0);
    lemma_script(scripts, id.handle(), id.spec_role(), false, 0);
}

proof fn lemma_script(scripts: Seq<Script>, handle: Seq<char>, role: Role, exact: bool, i: int)
    requires
        i >= 0,
    ensures
        match script_at(scripts, handle, role, exact, i) {
            Some(k) => i <= k < scripts.len() && scripts[k].agent.covers(handle, role) && (!exact
                || scripts[k].agent is Exact),
            None => forall|k: int|
                i <= k < scripts.len() ==> !(#[trigger] scripts[k]).agent.covers(handle, role) || (
                exact && !(scripts[k].agent is Exact)),
        },
    decreases scripts.len() - i,
{
    if i < scripts.len() {
        lemma_script(scripts, handle, role, exact, i + 1);
    }
}

/// What a script says is said as it is written: its text, and its calls in order, each under its name with
/// its arguments. Unless it says how it ends, it ends with calls if it makes any.
pub proof fn scripts_are_spoken_as_written(s: Say, user: Seq<char>, n: u64, i: int)
    ensures
        ({
            let r = say_reply(s, user, n);
            &&& r.content is Some <==> s.text is Some
            &&& s.text matches Some(text) ==> r.content == Some(text@)
            &&& r.calls is None <==> s.tool_calls@.len() == 0
            &&& r.calls matches Some(calls) ==> {
                &&& calls.len() == s.tool_calls@.len()
                &&& 0 <= i < calls.len() ==> {
                    &&& calls[i].name == s.tool_calls@[i].name@
                    &&& calls[i].arguments == s.tool_calls@[i].arguments@.text()
                    &&& calls[i].id == call_id(user, n, (i + 1) as nat)
                }
            }
            &&& s.finish matches Some(f) ==> r.finish == f
            &&& s.finish is None && s.tool_calls@.len() == 0 ==> r.finish == FinishReason::Stop
            &&& s.finish is None && s.tool_calls@.len() > 0 ==> r.finish == FinishReason::ToolCalls
        }),
{
}

/// Where a script falls through, has run out, or is missing, the built-in model answers as it would
/// without any script.
pub proof fn unscripted_calls_go_to_the_model(
    scripts: Seq<Script>,
    req: ChatRequest,
    u: crate::agent::UserView,
    n: u64,
    seed: u64,
)
    requires
        u.valid(),
    ensures
        ({
            let found = script_of(scripts, u.who().handle(), u.who().spec_role());
            let left = match found {
                Some(i) => response_at(scripts[i], n) is None || response_at(scripts[i], n)->0
                    is Fallthrough,
                None => true,
            };
            &&& left ==> play(scripts, req, u.text(), n, seed) == arc_reply(
                req,
                u.text(),
                n,
                seed,
            )
            &&& (found matches Some(i) && (response_at(scripts[i], n) matches Some(Response::Say(
                s,
            )))) ==> play(scripts, req, u.text(), n, seed) == say_reply(
                response_at(scripts[found->0], n)->0->Say_0,
                u.text(),
                n,
            )
        }),
{
    crate::agent::user_reads_back(u);
}

/// The body of a request for embeddings has to be JSON, and its input texts: what is no JSON is
/// refused with the fault in it, and numbers for texts are blamed on the input.
pub proof fn bodies_have_to_be_texts(body: Seq<u8>)
    ensures
        ({
            let r = body_refusal(body);
            &&& bytes_json(body) is None ==> (r matches Some(
                Refused::BadRequest { message, param },
            ) && param is None && json_fault(body).is_suffix_of(message))
            &&& (bytes_json(body) matches Some(raw) && raw.get("input"@) matches Some(input)
                && token_array(input)) ==> blames(r, "input"@)
            &&& (bytes_json(body) matches Some(raw) && (raw.get("input"@) is None || !token_array(
                raw.get("input"@)->0,
            ))) ==> r is None
        }),
{
    if bytes_json(body) is None {
        let front = "invalid embeddings request body: "@;
        assert((front + json_fault(body)).skip(front.len() as int) =~= json_fault(body));
    }
}

} // verus!
