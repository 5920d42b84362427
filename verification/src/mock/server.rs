//! What the server answers, apart from the transport: which requests are refused and how, and the
//! envelope of a reply.
use crate::context::TokenCounter;
use crate::event::TurnUsage;
use crate::json::{bytes_json, json_fault, lemma_items, Json, JsonView};
use crate::knowledge::{feature_counts, features, DEFAULT_DIMENSIONS};
use crate::llm::WireIdentity;
use crate::mock::arc::{handle_of, handle_or_raw, BehaviorModel};
use crate::mock::parse::opt_text;
use crate::text::{chars_of, dec, dec_text, number, parse_number, trim, trimmed};
use crate::wire::{
    call_views, conversation, ApiError, CallView, ChatDecision, ChatMessage, ChatRequest, LineView,
    ToolCall,
};
use vstd::prelude::*;

verus! {

/// Why a request is refused.
#[derive(PartialEq, Eq, Debug)]
pub enum MockError {
    /// The request is wrong.
    BadRequest { message: String, param: Option<String> },
    /// There is no such thing.
    NotFound { message: String, code: Option<String> },
}

/// Why a request is refused, in specifications.
pub enum Refused {
    /// The request is wrong.
    BadRequest { message: Seq<char>, param: Option<Seq<char>> },
    /// There is no such thing.
    NotFound { message: Seq<char>, code: Option<Seq<char>> },
}

impl View for MockError {
    type V = Refused;

    open spec fn view(&self) -> Refused {
        match self {
            MockError::BadRequest { message, param } => Refused::BadRequest {
                message: message@,
                param: opt_text(*param),
            },
            MockError::NotFound { message, code } => Refused::NotFound {
                message: message@,
                code: opt_text(*code),
            },
        }
    }
}

/// A request is wrong, and where.
pub open spec fn wrong(message: Seq<char>, param: Seq<char>) -> Refused {
    Refused::BadRequest { message, param: Some(param) }
}

impl MockError {
    /// The error in words.
    pub fn message(&self) -> (s: String)
        ensures
            s@ == match self@ {
                Refused::BadRequest { message, .. } => message,
                Refused::NotFound { message, .. } => message,
            },
    {
        match self {
            MockError::BadRequest { message, .. } => message.clone(),
            MockError::NotFound { message, .. } => message.clone(),
        }
    }

    fn wrong(message: &str, param: &str) -> (e: MockError)
        ensures
            e@ == wrong(message@, param@),
    {
        MockError::BadRequest { message: message.to_owned(), param: Some(param.to_owned()) }
    }

    /// A body that does not read as a chat request.
    pub fn unreadable_chat(fault: &str) -> (e: MockError)
        ensures
            e@ == (Refused::BadRequest {
                message: "invalid chat completion request body: "@ + fault@,
                param: None,
            }),
    {
        let mut message = "invalid chat completion request body: ".to_owned();
        message.push_str(fault);
        MockError::BadRequest { message, param: None }
    }

    /// A body that is no JSON.
    pub fn unreadable_embeddings(fault: &str) -> (e: MockError)
        ensures
            e@ == (Refused::BadRequest {
                message: "invalid embeddings request body: "@ + fault@,
                param: None,
            }),
    {
        let mut message = "invalid embeddings request body: ".to_owned();
        message.push_str(fault);
        MockError::BadRequest { message, param: None }
    }

    /// A body that does not read as an embeddings request.
    pub fn malformed_embeddings(fault: &str) -> (e: MockError)
        ensures
            e@ == (Refused::BadRequest {
                message: "invalid embeddings request: "@ + fault@,
                param: None,
            }),
    {
        let mut message = "invalid embeddings request: ".to_owned();
        message.push_str(fault);
        MockError::BadRequest { message, param: None }
    }

    /// A path that nothing is served under.
    pub fn unknown_route(method: &str, path: &str) -> (e: MockError)
        ensures
            e@ == (Refused::NotFound {
                message: "Unknown request URL: "@ + method@ + " "@ + path@,
                code: None,
            }),
    {
        let mut message = "Unknown request URL: ".to_owned();
        message.push_str(method);
        message.push_str(" ");
        message.push_str(path);
        MockError::NotFound { message, code: None }
    }

    /// The status and the error that the answer carries.
    pub fn into_parts(self) -> (r: (u16, ApiError))
        ensures
            r.1.kind@ == "invalid_request_error"@,
            match self@ {
                Refused::BadRequest { message, param } => r.0 == 400 && r.1.message@ == message
                    && opt_text(r.1.param) == param && r.1.code is None,
                Refused::NotFound { message, code } => r.0 == 404 && r.1.message@ == message
                    && opt_text(r.1.code) == code && r.1.param is None,
            },
    {
        match self {
            MockError::BadRequest { message, param } => (
                400,
                ApiError::invalid_request(message, param),
            ),
            MockError::NotFound { message, code } => (
                404,
                ApiError {
                    message,
                    kind: "invalid_request_error".to_owned(),
                    param: None,
                    code,
                },
            ),
        }
    }
}

/// A header read as a number; zero where it is missing or does not read.
pub open spec fn header_of(value: Option<Seq<char>>) -> u64 {
    match value {
        Some(v) => match number(trim(v), u64::MAX as nat) {
            Some(n) => n as u64,
            None => 0,
        },
        None => 0,
    }
}

/// Reads a header as a number.
pub fn header_u64(value: Option<&str>) -> (n: u64)
    ensures
        n == header_of(
            match value {
                Some(v) => Some(v@),
                None => None,
            },
        ),
{
    match value {
        Some(v) => match parse_number(trimmed(chars_of(v).as_slice()), u64::MAX) {
            Some(n) => n,
            None => 0,
        },
        None => 0,
    }
}

/// Refuses a model without a name.
pub fn require_model(model: &str) -> (r: Result<(), MockError>)
    ensures
        model@.len() > 0 ==> r is Ok,
        model@.len() == 0 ==> r is Err && r->Err_0@ == unknown_model(),
{
    if chars_of(model).len() == 0 {
        return Err(
            MockError::NotFound {
                message: "The model `` does not exist or you do not have access to it.".to_owned(),
                code: Some("model_not_found".to_owned()),
            },
        );
    }
    Ok(())
}

/// The refusal of a model without a name.
pub open spec fn unknown_model() -> Refused {
    Refused::NotFound {
        message: "The model `` does not exist or you do not have access to it."@,
        code: Some("model_not_found"@),
    }
}

/// Why a chat request is refused, if it is: the first of these that holds.
pub open spec fn chat_refusal(req: ChatRequest) -> Option<Refused> {
    if req.model@.len() == 0 {
        Some(unknown_model())
    } else if req.messages.len() == 0 {
        Some(wrong("messages must contain at least one message."@, "messages"@))
    } else if req.stream == Some(true) {
        Some(wrong("Streaming is not supported by this mock."@, "stream"@))
    } else {
        match req.n {
            Some(n) => if n != 1 {
                Some(wrong("n must be 1 for this mock, got "@ + dec(n as nat) + "."@, "n"@))
            } else {
                None
            },
            None => None,
        }
    }
}

fn check_chat(req: &ChatRequest) -> (r: Result<(), MockError>)
    ensures
        match r {
            Ok(_) => chat_refusal(*req) is None,
            Err(e) => chat_refusal(*req) == Some(e@),
        },
{
    match require_model(req.model.as_str()) {
        Ok(_) => {},
        Err(e) => {
            return Err(e);
        },
    }
    if req.messages.len() == 0 {
        return Err(MockError::wrong("messages must contain at least one message.", "messages"));
    }
    if let Some(stream) = req.stream {
        if stream {
            return Err(MockError::wrong("Streaming is not supported by this mock.", "stream"));
        }
    }
    if let Some(n) = req.n {
        if n != 1 {
            let mut message = "n must be 1 for this mock, got ".to_owned();
            message.push_str(dec_text(n as u64).as_str());
            message.push_str(".");
            return Err(MockError::wrong(message.as_str(), "n"));
        }
    }
    Ok(())
}

/// Who asks, as a reply's id shows it.
pub open spec fn asker(user: Option<Seq<char>>) -> Seq<char> {
    match user {
        Some(u) => if u.len() == 0 {
            "anon"@
        } else {
            handle_or_raw(u)
        },
        None => "anon"@,
    }
}

/// Who asks, as a reply's id shows it.
pub fn response_handle(user: Option<&str>) -> (s: String)
    ensures
        s@ == asker(
            match user {
                Some(u) => Some(u@),
                None => None,
            },
        ),
{
    match user {
        Some(u) => if chars_of(u).len() == 0 {
            "anon".to_owned()
        } else {
            handle_of(u)
        },
        None => "anon".to_owned(),
    }
}

/// The id of a reply.
pub open spec fn reply_id(user: Option<Seq<char>>, call_seq: u64, seed: u64) -> Seq<char> {
    "chatcmpl-"@ + dec(seed as nat) + "-"@ + asker(user) + "-"@ + dec(call_seq as nat)
}

/// A reply, but for its token counts.
#[derive(PartialEq, Eq, Debug)]
pub struct ChatReply {
    /// Its id.
    pub id: String,
    /// When it was made, in seconds since 1970.
    pub created: u64,
    /// The model, as the request names it.
    pub model: String,
    /// What it says and calls.
    pub decision: ChatDecision,
}

/// Answers a chat request: refuses it, or has a behaviour decide and puts the decision in its
/// envelope. There is no answer to a request that the behaviour cannot decide on.
pub fn answer_chat<B: BehaviorModel>(
    behavior: &B,
    req: &ChatRequest,
    call_seq: Option<&str>,
    seed: Option<&str>,
    created: u64,
) -> (r: Result<Option<ChatReply>, MockError>)
    ensures
        ({
            let s = header_of(
                match seed {
                    Some(v) => Some(v@),
                    None => None,
                },
            );
            let n = header_of(
                match call_seq {
                    Some(v) => Some(v@),
                    None => None,
                },
            );
            let user = match req.user {
                Some(u) => u@,
                None => Seq::empty(),
            };
            match r {
                Err(e) => chat_refusal(*req) == Some(e@),
                Ok(None) => chat_refusal(*req) is None && !behavior.accepts(*req, user, n),
                Ok(Some(reply)) => {
                    &&& chat_refusal(*req) is None
                    &&& behavior.accepts(*req, user, n)
                    &&& reply.id@ == reply_id(opt_text(req.user), n, s)
                    &&& reply.created == created
                    &&& reply.model@ == req.model@
                    &&& reply.decision@ == behavior.decides(*req, user, n, s)
                },
            }
        }),
{
    match check_chat(req) {
        Ok(_) => {},
        Err(e) => {
            return Err(e);
        },
    }
    let user = match &req.user {
        Some(u) => u.clone(),
        None => String::new(),
    };
    let identity = WireIdentity {
        user,
        call_seq: header_u64(call_seq),
        seed: header_u64(seed),
    };
    if !behavior.can_answer(req, &identity) {
        return Ok(None);
    }
    let decision = behavior.chat(req, &identity);
    let handle = match &req.user {
        Some(u) => response_handle(Some(u.as_str())),
        None => response_handle(None),
    };
    let mut id = "chatcmpl-".to_owned();
    id.push_str(dec_text(identity.seed).as_str());
    id.push_str("-");
    id.push_str(handle.as_str());
    id.push_str("-");
    id.push_str(dec_text(identity.call_seq).as_str());
    Ok(Some(ChatReply { id, created, model: req.model.clone(), decision }))
}

/// An input given as tokens: an array that starts with a number or an array.
pub open spec fn token_array(input: JsonView) -> bool {
    match input {
        JsonView::Array(items) => items.len() > 0 && (items[0] is Number || items[0] is Array),
        _ => false,
    }
}

fn is_token_array_input(input: &Json) -> (b: bool)
    ensures
        b == token_array(input@),
{
    match input {
        Json::Array(items) => {
            proof {
                lemma_items(items@);
            }
            if items.len() == 0 {
                return false;
            }
            assert(crate::json::items_view(items@)[0] == items@[0]@);
            match &items[0] {
                Json::Number { .. } => true,
                Json::Array(_) => true,
                _ => false,
            }
        },
        _ => false,
    }
}

/// Why the body of an embeddings request is refused as it stands, if it is: it is no JSON, or its
/// input is given as tokens.
pub open spec fn body_refusal(body: Seq<u8>) -> Option<Refused> {
    match bytes_json(body) {
        None => Some(
            Refused::BadRequest {
                message: "invalid embeddings request body: "@ + json_fault(body),
                param: None,
            },
        ),
        Some(raw) => match raw.get("input"@) {
            Some(input) => if token_array(input) {
                Some(
                    wrong(
                        "token-array input is not supported by this mock; send a string or an array of strings."@,
                        "input"@,
                    ),
                )
            } else {
                None
            },
            None => None,
        },
    }
}

/// What becomes of the body of an embeddings request, given what reading it as JSON came to.
pub fn check_embeddings(read: Result<Json, String>) -> (r: Result<Json, MockError>)
    ensures
        match (read, r) {
            (Ok(raw), Ok(j)) => j == raw && (raw@.get("input"@) is None || !token_array(
                raw@.get("input"@)->0,
            )),
            (Ok(raw), Err(e)) => {
                &&& raw@.get("input"@) is Some
                &&& token_array(raw@.get("input"@)->0)
                &&& e@ == wrong(
                    "token-array input is not supported by this mock; send a string or an array of strings."@,
                    "input"@,
                )
            },
            (Err(fault), Ok(_)) => false,
            (Err(fault), Err(e)) => e@ == (Refused::BadRequest {
                message: "invalid embeddings request body: "@ + fault@,
                param: None,
            }),
        },
{
    let raw = match read {
        Ok(raw) => raw,
        Err(fault) => {
            return Err(MockError::unreadable_embeddings(fault.as_str()));
        },
    };
    if let Some(input) = raw.get("input") {
        if is_token_array_input(input) {
            return Err(
                MockError::wrong(
                    "token-array input is not supported by this mock; send a string or an array of strings.",
                    "input",
                ),
            );
        }
    }
    Ok(raw)
}

/// Reads the body of an embeddings request as JSON and refuses an input that is given as tokens.
pub fn read_embeddings(body: &Vec<u8>) -> (r: Result<Json, MockError>)
    ensures
        match r {
            Ok(j) => body_refusal(body@) is None && bytes_json(body@) == Some(j@),
            Err(e) => body_refusal(body@) == Some(e@),
        },
{
    check_embeddings(Json::read(body))
}

/// A request for embeddings.
#[derive(PartialEq, Eq, Debug)]
pub struct EmbeddingRequest {
    /// The model.
    pub model: String,
    /// The texts.
    pub inputs: Vec<String>,
    /// How long the vectors are to be.
    pub dimensions: Option<u32>,
}

/// Why a request for embeddings is refused, if it is: the first of these that holds.
pub open spec fn embeddings_refusal(req: EmbeddingRequest) -> Option<Refused> {
    if req.model@.len() == 0 {
        Some(unknown_model())
    } else if req.dimensions == Some(0u32) {
        Some(wrong("dimensions must be at least 1."@, "dimensions"@))
    } else if req.inputs.len() == 0 {
        Some(wrong("input must not be an empty array."@, "input"@))
    } else {
        None
    }
}

/// How long the vectors are.
pub open spec fn vector_len(req: EmbeddingRequest) -> nat {
    match req.dimensions {
        Some(n) => n as nat,
        None => DEFAULT_DIMENSIONS as nat,
    }
}

/// The tokens of the first `n` texts.
pub open spec fn input_tokens<T: TokenCounter>(counter: T, inputs: Seq<String>, n: int) -> nat
    decreases n,
{
    if n <= 0 {
        0
    } else {
        input_tokens(counter, inputs, n - 1) + counter.tokens(inputs[n - 1]@)
    }
}

/// The bucket counts of texts, and their tokens.
#[derive(PartialEq, Eq, Debug)]
pub struct EmbeddingReply {
    /// The bucket counts, the directions of the vectors.
    pub counts: Vec<Vec<i128>>,
    /// The tokens of all texts.
    pub prompt_tokens: u64,
}

/// Answers a request for embeddings.
pub fn answer_embeddings<T: TokenCounter>(counter: &T, req: &EmbeddingRequest) -> (r: Result<
    EmbeddingReply,
    MockError,
>)
    requires
        input_tokens(*counter, req.inputs@, req.inputs.len() as int) <= u64::MAX,
    ensures
        match r {
            Err(e) => embeddings_refusal(*req) == Some(e@),
            Ok(reply) => {
                &&& embeddings_refusal(*req) is None
                &&& reply.prompt_tokens == input_tokens(
                    *counter,
                    req.inputs@,
                    req.inputs.len() as int,
                )
                &&& reply.counts@.len() == req.inputs.len()
                &&& forall|i: int, k: int|
                    0 <= i < req.inputs.len() && 0 <= k < vector_len(*req)
                        ==> #[trigger] reply.counts@[i]@[k] == features(
                        req.inputs@[i]@,
                        vector_len(*req),
                    )[k]
                &&& forall|i: int|
                    0 <= i < req.inputs.len() ==> (#[trigger] reply.counts@[i])@.len()
                        == vector_len(*req)
            },
        },
{
    match require_model(req.model.as_str()) {
        Ok(_) => {},
        Err(e) => {
            return Err(e);
        },
    }
    if let Some(n) = req.dimensions {
        if n == 0 {
            return Err(MockError::wrong("dimensions must be at least 1.", "dimensions"));
        }
    }
    if req.inputs.len() == 0 {
        return Err(MockError::wrong("input must not be an empty array.", "input"));
    }
    let dims: usize = match req.dimensions {
        Some(n) => n as usize,
        None => DEFAULT_DIMENSIONS,
    };
    let mut counts: Vec<Vec<i128>> = Vec::new();
    let mut prompt: u64 = 0;
    let mut i: usize = 0;
    while i < req.inputs.len()
        invariant
            0 <= i <= req.inputs.len(),
            dims == vector_len(*req),
            dims > 0,
            counts@.len() == i,
            prompt == input_tokens(*counter, req.inputs@, i as int),
            input_tokens(*counter, req.inputs@, req.inputs.len() as int) <= u64::MAX,
            forall|j: int, k: int|
                0 <= j < i && 0 <= k < dims ==> #[trigger] counts@[j]@[k] == features(
                    req.inputs@[j]@,
                    dims as nat,
                )[k],
            forall|j: int| 0 <= j < i ==> (#[trigger] counts@[j])@.len() == dims,
        decreases req.inputs.len() - i,
    {
        proof {
            lemma_tokens_grow(*counter, req.inputs@, i + 1, req.inputs.len() as int);
        }
        prompt = prompt + counter.count(req.inputs[i].as_str()) as u64;
        counts.push(feature_counts(req.inputs[i].as_str(), dims));
        i = i + 1;
    }
    Ok(EmbeddingReply { counts, prompt_tokens: prompt })
}

proof fn lemma_tokens_grow<T: TokenCounter>(counter: T, inputs: Seq<String>, a: int, b: int)
    requires
        a <= b,
    ensures
        input_tokens(counter, inputs, a) <= input_tokens(counter, inputs, b),
    decreases b - a,
{
    if a < b {
        lemma_tokens_grow(counter, inputs, a, b - 1);
    }
}

// ---------------------------------------------------------------------------
// Tokens.
// ---------------------------------------------------------------------------

/// The tokens of the first `n` calls: those of their names and arguments.
pub open spec fn call_tokens<T: TokenCounter>(counter: T, calls: Seq<CallView>, n: int) -> nat
    decreases n,
{
    if n <= 0 {
        0
    } else {
        call_tokens(counter, calls, n - 1) + counter.tokens(calls[n - 1].name) + counter.tokens(
            calls[n - 1].arguments,
        )
    }
}

/// The tokens of what is said and called.
pub open spec fn spoken_tokens<T: TokenCounter>(
    counter: T,
    content: Option<Seq<char>>,
    calls: Option<Seq<CallView>>,
) -> nat {
    (match content {
        Some(text) => counter.tokens(text),
        None => 0,
    }) + (match calls {
        Some(made) => call_tokens(counter, made, made.len() as int),
        None => 0,
    })
}

/// The tokens of a message.
pub open spec fn line_tokens<T: TokenCounter>(counter: T, line: LineView) -> nat {
    match line {
        LineView::System(text) => counter.tokens(text),
        LineView::User(text) => counter.tokens(text),
        LineView::Assistant(content, calls) => spoken_tokens(counter, content, calls),
        LineView::Tool(text, _) => counter.tokens(text),
    }
}

/// The tokens of the first `n` messages.
pub open spec fn conversation_tokens<T: TokenCounter>(counter: T, lines: Seq<LineView>, n: int) -> nat
    decreases n,
{
    if n <= 0 {
        0
    } else {
        conversation_tokens(counter, lines, n - 1) + line_tokens(counter, lines[n - 1])
    }
}

/// A count, unless it is too large.
pub open spec fn counted(n: nat) -> Option<u64> {
    if n <= u64::MAX {
        Some(n as u64)
    } else {
        None
    }
}

fn plus(a: Option<u64>, n: usize, Ghost(so_far): Ghost<nat>) -> (r: Option<u64>)
    requires
        a == counted(so_far),
    ensures
        r == counted((so_far + n) as nat),
{
    match a {
        Some(x) => if n as u64 <= u64::MAX - x {
            Some(x + n as u64)
        } else {
            None
        },
        None => None,
    }
}

/// Adds the tokens of what is said and called.
fn add_spoken<T: TokenCounter>(
    counter: &T,
    start: Option<u64>,
    content: &Option<String>,
    calls: &Option<Vec<ToolCall>>,
    Ghost(so_far): Ghost<nat>,
) -> (r: Option<u64>)
    requires
        start == counted(so_far),
    ensures
        r == counted(
            so_far + spoken_tokens(
                *counter,
                opt_text(*content),
                match calls {
                    Some(made) => Some(call_views(made@)),
                    None => None,
                },
            ),
        ),
{
    let mut sum = start;
    let ghost mut total: nat = so_far;
    if let Some(text) = content {
        sum = plus(sum, counter.count(text.as_str()), Ghost(total));
        proof {
            total = total + counter.tokens(text@);
        }
    }
    if let Some(made) = calls {
        let ghost base = total;
        let mut i: usize = 0;
        while i < made.len()
            invariant
                0 <= i <= made.len(),
                sum == counted(base + call_tokens(*counter, call_views(made@), i as int)),
            decreases made.len() - i,
        {
            let ghost before = base + call_tokens(*counter, call_views(made@), i as int);
            assert(call_views(made@)[i as int] == made@[i as int]@);
            let names: usize = counter.count(made[i].name.as_str());
            sum = plus(sum, names, Ghost(before));
            sum = plus(sum, counter.count(made[i].arguments.as_str()), Ghost(before + names as nat));
            i = i + 1;
        }
    }
    sum
}

/// The tokens of a request and of its reply, unless there are too many to count in 64 bits.
pub fn chat_usage<T: TokenCounter>(
    counter: &T,
    messages: &Vec<ChatMessage>,
    decision: &ChatDecision,
) -> (r: Option<TurnUsage>)
    ensures
        ({
            let prompt = conversation_tokens(
                *counter,
                conversation(messages@),
                messages.len() as int,
            );
            let completion = spoken_tokens(*counter, decision@.content, decision@.calls);
            match r {
                Some(u) => {
                    &&& u.prompt == prompt
                    &&& u.completion == completion
                    &&& u.total == prompt + completion
                },
                None => prompt + completion > u64::MAX,
            }
        }),
{
    let ghost lines = conversation(messages@);
    let mut prompt: Option<u64> = Some(0);
    let mut i: usize = 0;
    while i < messages.len()
        invariant
            0 <= i <= messages.len(),
            lines == conversation(messages@),
            prompt == counted(conversation_tokens(*counter, lines, i as int)),
        decreases messages.len() - i,
    {
        let ghost before = conversation_tokens(*counter, lines, i as int);
        assert(lines[i as int] == messages@[i as int]@);
        prompt = match &messages[i] {
            ChatMessage::System { content } => plus(
                prompt,
                counter.count(content.as_str()),
                Ghost(before),
            ),
            ChatMessage::User { content } => plus(
                prompt,
                counter.count(content.as_str()),
                Ghost(before),
            ),
            ChatMessage::Assistant { content, tool_calls } => add_spoken(
                counter,
                prompt,
                content,
                tool_calls,
                Ghost(before),
            ),
            ChatMessage::Tool { content, .. } => plus(
                prompt,
                counter.count(content.as_str()),
                Ghost(before),
            ),
        };
        i = i + 1;
    }
    let message = &decision.message;
    let completion = add_spoken(counter, Some(0), &message.content, &message.tool_calls, Ghost(0));
    match (prompt, completion) {
        (Some(prompt), Some(completion)) => if completion <= u64::MAX - prompt {
            Some(TurnUsage { prompt, completion, total: prompt + completion })
        } else {
            None
        },
        _ => None,
    }
}

} // verus!
