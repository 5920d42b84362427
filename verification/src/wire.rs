//! Chat requests and replies.
use crate::event::text_view;
use crate::tools::ToolDef;
use vstd::prelude::*;

verus! {

/// A call of a tool.
#[derive(PartialEq, Eq, Debug)]
pub struct ToolCall {
    /// The number under which the outcome comes back.
    pub id: String,
    /// The verb.
    pub name: String,
    /// The arguments as JSON text.
    pub arguments: String,
}

/// A call of a tool in specifications.
pub struct CallView {
    /// The number under which the outcome comes back.
    pub id: Seq<char>,
    /// The verb.
    pub name: Seq<char>,
    /// The arguments as JSON text.
    pub arguments: Seq<char>,
}

impl View for ToolCall {
    type V = CallView;

    open spec fn view(&self) -> CallView {
        CallView { id: self.id@, name: self.name@, arguments: self.arguments@ }
    }
}

/// What a list of calls holds.
pub open spec fn call_views(calls: Seq<ToolCall>) -> Seq<CallView> {
    Seq::new(calls.len(), |i: int| calls[i]@)
}

/// A message of a request.
#[allow(inconsistent_fields)]
#[derive(PartialEq, Eq, Debug)]
pub enum ChatMessage {
    /// Standing instructions.
    System { content: String },
    /// What the agent is shown.
    User { content: String },
    /// What the model said and called.
    Assistant { content: Option<String>, tool_calls: Option<Vec<ToolCall>> },
    /// The outcome of a call.
    Tool { content: String, tool_call_id: String },
}

/// A message of a request in specifications.
pub enum LineView {
    /// Standing instructions.
    System(Seq<char>),
    /// What the agent is shown.
    User(Seq<char>),
    /// What the model said and called.
    Assistant(Option<Seq<char>>, Option<Seq<CallView>>),
    /// The outcome of the call with the given number.
    Tool(Seq<char>, Seq<char>),
}

impl View for ChatMessage {
    type V = LineView;

    open spec fn view(&self) -> LineView {
        match self {
            ChatMessage::System { content } => LineView::System(content@),
            ChatMessage::User { content } => LineView::User(content@),
            ChatMessage::Assistant { content, tool_calls } => LineView::Assistant(
                text_view(*content),
                match tool_calls {
                    Some(calls) => Some(call_views(calls@)),
                    None => None,
                },
            ),
            ChatMessage::Tool { content, tool_call_id } => LineView::Tool(content@, tool_call_id@),
        }
    }
}

/// What a conversation holds.
pub open spec fn conversation(messages: Seq<ChatMessage>) -> Seq<LineView> {
    Seq::new(messages.len(), |i: int| messages[i]@)
}

/// Whether and what the model may call.
#[derive(PartialEq, Eq, Debug)]
pub enum ToolChoice {
    /// It may call.
    Auto,
    /// It may not call.
    Never,
    /// It must call.
    Required,
    /// It must call this.
    Function(String),
}

/// A request for a completion.
#[derive(Debug)]
pub struct ChatRequest {
    /// The model.
    pub model: String,
    /// The conversation.
    pub messages: Vec<ChatMessage>,
    /// The tools on offer.
    pub tools: Vec<ToolDef>,
    /// Whether they may be called.
    pub tool_choice: Option<ToolChoice>,
    /// Whether several may be called at once.
    pub parallel_tool_calls: Option<bool>,
    /// Who asks.
    pub user: Option<String>,
    /// Whether the reply is to be streamed.
    pub stream: Option<bool>,
    /// How many replies.
    pub n: Option<u32>,
}

/// Why a completion ended.
#[derive(Clone, Copy, PartialEq, Eq, Structural, Debug)]
pub enum FinishReason {
    /// The model had said what it had to say.
    Stop,
    /// The length limit.
    Length,
    /// The model called tools.
    ToolCalls,
    /// A content filter.
    ContentFilter,
}

/// What the model says.
#[derive(PartialEq, Eq, Debug)]
pub struct ResponseMessage {
    /// In words.
    pub content: Option<String>,
    /// In calls.
    pub tool_calls: Option<Vec<ToolCall>>,
}

/// The semantic part of a reply: the message and why it ended.
#[derive(PartialEq, Eq, Debug)]
pub struct ChatDecision {
    /// The message.
    pub message: ResponseMessage,
    /// Why it ended.
    pub finish: FinishReason,
}

/// The semantic part of a reply in specifications.
#[verifier::ext_equal]
pub struct DecisionView {
    /// What is said.
    pub content: Option<Seq<char>>,
    /// What is called.
    pub calls: Option<Seq<CallView>>,
    /// Why it ended.
    pub finish: FinishReason,
}

impl View for ChatDecision {
    type V = DecisionView;

    open spec fn view(&self) -> DecisionView {
        DecisionView {
            content: match self.message.content {
                Some(t) => Some(t@),
                None => None,
            },
            calls: match self.message.tool_calls {
                Some(c) => Some(call_views(c@)),
                None => None,
            },
            finish: self.finish,
        }
    }
}

/// A reply that says something and calls nothing.
pub open spec fn said(text: Seq<char>) -> DecisionView {
    DecisionView { content: Some(text), calls: None, finish: FinishReason::Stop }
}

/// Says something and calls nothing.
pub fn say(text: String) -> (d: ChatDecision)
    ensures
        d@ == said(text@),
{
    ChatDecision {
        message: ResponseMessage { content: Some(text), tool_calls: None },
        finish: FinishReason::Stop,
    }
}

/// An error as a reply carries it.
#[derive(PartialEq, Eq, Debug)]
pub struct ApiError {
    /// In words.
    pub message: String,
    /// Its type.
    pub kind: String,
    /// The parameter at fault.
    pub param: Option<String>,
    /// Its code.
    pub code: Option<String>,
}

impl ApiError {
    /// An error on the side of the request.
    pub fn invalid_request(message: String, param: Option<String>) -> (e: ApiError)
        ensures
            e.message == message,
            e.kind@ == "invalid_request_error"@,
            e.param == param,
            e.code is None,
    {
        ApiError { message, kind: "invalid_request_error".to_owned(), param, code: None }
    }
}

} // verus!
