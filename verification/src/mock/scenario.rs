//! Scripted behaviour: a script gives the replies of an agent by the number of the call, and the
//! built-in behaviour gives all others.
use crate::agent::{handle_agent, user_of, AgentId, ParsedUser, Role};
use crate::json::Json;
use crate::llm::WireIdentity;
use crate::mock::arc::{
    arc_reply, call_id, call_id_text, countable, reply_within_budget,
    same_requests_get_the_same_reply, worded, BehaviorModel, BuiltinArc,
};
use crate::mock::parse::opt_text;
use crate::mock::rendered::{same_request, shown};
use crate::text::{dec, dec_text, debug_quote, debug_quoted, same};
use crate::wire::{
    call_views, said, say, CallView, ChatDecision, ChatRequest, DecisionView, FinishReason,
    ResponseMessage, ToolCall,
};
use vstd::prelude::*;

verus! {

/// The version of the file format that this library reads.
pub const SCENARIO_VERSION: u32 = 1;

/// Why a scenario does not load.
#[derive(PartialEq, Eq, Debug)]
pub enum ScenarioError {
    /// Its file does not read.
    Io { path: String, source: String },
    /// Its file is not structurally valid.
    Parse(String),
    /// Its version is another one.
    UnsupportedVersion { found: u32 },
}

impl ScenarioError {
    /// The error in words.
    pub open spec fn text(self) -> Seq<char> {
        match self {
            ScenarioError::Io { path, source } => "failed to read scenario file "@ + path@ + ": "@
                + source@,
            ScenarioError::Parse(e) => "scenario file is not structurally valid: "@ + e@,
            ScenarioError::UnsupportedVersion { found } => "unsupported scenario version "@ + dec(
                found as nat,
            ) + "; this build supports version "@ + dec(SCENARIO_VERSION as nat),
        }
    }

    /// The error in words.
    pub fn message(&self) -> (s: String)
        ensures
            s@ == self.text(),
    {
        match self {
            ScenarioError::Io { path, source } => {
                let mut s = "failed to read scenario file ".to_owned();
                s.push_str(path.as_str());
                s.push_str(": ");
                s.push_str(source.as_str());
                s
            },
            ScenarioError::Parse(e) => {
                let mut s = "scenario file is not structurally valid: ".to_owned();
                s.push_str(e.as_str());
                s
            },
            ScenarioError::UnsupportedVersion { found } => {
                let mut s = "unsupported scenario version ".to_owned();
                s.push_str(dec_text(*found as u64).as_str());
                s.push_str("; this build supports version ");
                s.push_str(dec_text(SCENARIO_VERSION as u64).as_str());
                s
            },
        }
    }
}

/// Whom a script is for.
#[derive(PartialEq, Eq, Debug)]
pub enum Selector {
    /// The agent with this handle.
    Exact(String),
    /// Any team agent.
    TeamWildcard,
    /// Any meta-agent.
    MetaWildcard,
}

impl Selector {
    /// The selector is for an agent.
    pub open spec fn covers(self, handle: Seq<char>, role: Role) -> bool {
        match self {
            Selector::Exact(exact) => exact@ == handle,
            Selector::TeamWildcard => role == Role::TeamAgent,
            Selector::MetaWildcard => role == Role::MetaAgent,
        }
    }

    /// Reads a selector.
    pub fn parse(value: &str) -> (r: Result<Selector, String>)
        ensures
            match r {
                Ok(Selector::TeamWildcard) => value@ == "agent-*"@,
                Ok(Selector::MetaWildcard) => value@ == "meta-*"@,
                Ok(Selector::Exact(s)) => s@ == value@ && handle_agent(value@) is Some,
                Err(e) => {
                    &&& value@ != "agent-*"@
                    &&& value@ != "meta-*"@
                    &&& handle_agent(value@) is None
                    &&& e@ == "invalid agent selector "@ + debug_quote(value@)
                        + ": expected \"orchestrator\", an exact handle, \"agent-*\", or \"meta-*\""@
                },
            },
            value@ == "agent-*"@ ==> r == Ok::<Selector, String>(Selector::TeamWildcard),
            value@ == "meta-*"@ ==> r == Ok::<Selector, String>(Selector::MetaWildcard),
    {
        proof {
            reveal_strlit("agent-*");
            reveal_strlit("meta-*");
            assert("agent-*"@.len() != "meta-*"@.len());
        }
        if same(value, "agent-*") {
            Ok(Selector::TeamWildcard)
        } else if same(value, "meta-*") {
            Ok(Selector::MetaWildcard)
        } else if AgentId::parse(value).is_some() {
            Ok(Selector::Exact(value.to_owned()))
        } else {
            let mut e = "invalid agent selector ".to_owned();
            e.push_str(debug_quoted(value).as_str());
            e.push_str(
                ": expected \"orchestrator\", an exact handle, \"agent-*\", or \"meta-*\"",
            );
            Err(e)
        }
    }

    /// Whether the selector is for an agent.
    pub fn matches(&self, handle: &str, role: Role) -> (b: bool)
        ensures
            b == self.covers(handle@, role),
    {
        match self {
            Selector::Exact(exact) => same(exact.as_str(), handle),
            Selector::TeamWildcard => role == Role::TeamAgent,
            Selector::MetaWildcard => role == Role::MetaAgent,
        }
    }
}

/// A scripted call. Nothing is asked of the verb or its arguments.
#[derive(Debug)]
pub struct Call {
    /// The verb.
    pub name: String,
    /// The arguments.
    pub arguments: Json,
}

/// A scripted message.
#[derive(Debug)]
pub struct Say {
    /// What is said.
    pub text: Option<String>,
    /// What is called.
    pub tool_calls: Vec<Call>,
    /// Why it ended, unless that follows from the calls.
    pub finish: Option<FinishReason>,
}

/// A scripted reply.
#[derive(Debug)]
pub enum Response {
    /// End the turn.
    Yield,
    /// Leave it to the built-in behaviour.
    Fallthrough,
    /// Say or call something.
    Say(Say),
}

impl Response {
    /// Reads a reply that is a keyword.
    pub fn keyword(word: &str) -> (r: Result<Response, String>)
        ensures
            word@ == "yield"@ ==> r matches Ok(Response::Yield),
            word@ == "fallthrough"@ ==> r matches Ok(Response::Fallthrough),
            word@ != "yield"@ && word@ != "fallthrough"@ ==> {
                &&& r is Err
                &&& r->Err_0@ == "unknown response keyword "@ + debug_quote(word@)
                    + ": expected \"yield\" or \"fallthrough\""@
            },
    {
        proof {
            reveal_strlit("yield");
            reveal_strlit("fallthrough");
            assert("yield"@.len() != "fallthrough"@.len());
        }
        if same(word, "yield") {
            Ok(Response::Yield)
        } else if same(word, "fallthrough") {
            Ok(Response::Fallthrough)
        } else {
            let mut e = "unknown response keyword ".to_owned();
            e.push_str(debug_quoted(word).as_str());
            e.push_str(": expected \"yield\" or \"fallthrough\"");
            Err(e)
        }
    }
}

/// The replies of an agent: one for each call, then others in turn.
#[derive(Debug)]
pub struct Script {
    /// Whom the script is for.
    pub agent: Selector,
    /// The replies by the number of the call.
    pub responses: Vec<Response>,
    /// The replies to later calls, over and over.
    pub repeat: Vec<Response>,
}

/// A set of scripts.
#[derive(Debug)]
pub struct Scenario {
    /// The version of the file format.
    pub version: u32,
    /// What it is about.
    pub description: Option<String>,
    /// What it brings about.
    pub reproduces: Option<String>,
    /// The scripts.
    pub scripts: Vec<Script>,
}

impl Scenario {
    /// Accepts a scenario of the version that this library reads.
    pub fn checked(self) -> (r: Result<Scenario, ScenarioError>)
        ensures
            r == if self.version == SCENARIO_VERSION {
                Ok::<Scenario, ScenarioError>(self)
            } else {
                Err(ScenarioError::UnsupportedVersion { found: self.version })
            },
    {
        if self.version != SCENARIO_VERSION {
            return Err(ScenarioError::UnsupportedVersion { found: self.version });
        }
        Ok(self)
    }
}

/// The first script from `i` on that is for an agent, and is for it alone where `exact` is asked.
pub open spec fn script_at(
    scripts: Seq<Script>,
    handle: Seq<char>,
    role: Role,
    exact: bool,
    i: int,
) -> Option<int>
    decreases scripts.len() - i,
{
    if i < 0 || i >= scripts.len() {
        None
    } else if scripts[i].agent.covers(handle, role) && (!exact || scripts[i].agent is Exact) {
        Some(i)
    } else {
        script_at(scripts, handle, role, exact, i + 1)
    }
}

/// The script of an agent: the first that is for it alone, else the first that is for it.
pub open spec fn script_of(scripts: Seq<Script>, handle: Seq<char>, role: Role) -> Option<int> {
    match script_at(scripts, handle, role, true, 0) {
        Some(i) => Some(i),
        None => script_at(scripts, handle, role, false, 0),
    }
}

/// The reply of a script to a call, if it has one.
pub open spec fn response_at(script: Script, call_seq: u64) -> Option<Response> {
    let seq = if call_seq <= usize::MAX {
        call_seq as int
    } else {
        usize::MAX as int
    };
    let n = script.responses.len() as int;
    if seq < n {
        Some(script.responses@[seq])
    } else if script.repeat.len() > 0 {
        Some(script.repeat@[(seq - n) % (script.repeat.len() as int)])
    } else {
        None
    }
}

/// Calls as a reply carries them.
pub open spec fn scripted_calls(calls: Seq<Call>, user: Seq<char>, call_seq: u64) -> Seq<CallView> {
    Seq::new(
        calls.len(),
        |i: int|
            CallView {
                id: call_id(user, call_seq, (i + 1) as nat),
                name: calls[i].name@,
                arguments: calls[i].arguments@.text(),
            },
    )
}

/// The reply that a scripted message makes.
pub open spec fn say_reply(s: Say, user: Seq<char>, call_seq: u64) -> DecisionView {
    DecisionView {
        content: opt_text(s.text),
        calls: if s.tool_calls.len() == 0 {
            None
        } else {
            Some(scripted_calls(s.tool_calls@, user, call_seq))
        },
        finish: match s.finish {
            Some(f) => f,
            None => if s.tool_calls.len() == 0 {
                FinishReason::Stop
            } else {
                FinishReason::ToolCalls
            },
        },
    }
}

fn realize_say(s: &Say, id: &WireIdentity) -> (r: ChatDecision)
    ensures
        r@ == say_reply(*s, id.user@, id.call_seq),
{
    let tool_calls = if s.tool_calls.len() == 0 {
        None
    } else {
        let mut sent: Vec<ToolCall> = Vec::new();
        let mut i: usize = 0;
        while i < s.tool_calls.len()
            invariant
                0 <= i <= s.tool_calls.len(),
                sent.len() == i,
                forall|k: int|
                    0 <= k < i ==> (#[trigger] sent@[k])@ == scripted_calls(
                        s.tool_calls@,
                        id.user@,
                        id.call_seq,
                    )[k],
            decreases s.tool_calls.len() - i,
        {
            sent.push(
                ToolCall {
                    id: call_id_text(id.user.as_str(), id.call_seq, i as u64 + 1),
                    name: s.tool_calls[i].name.clone(),
                    arguments: s.tool_calls[i].arguments.render(),
                },
            );
            i = i + 1;
        }
        assert(call_views(sent@) =~= scripted_calls(s.tool_calls@, id.user@, id.call_seq));
        Some(sent)
    };
    let finish = match s.finish {
        Some(f) => f,
        None => if s.tool_calls.len() == 0 {
            FinishReason::Stop
        } else {
            FinishReason::ToolCalls
        },
    };
    let content = match &s.text {
        Some(t) => Some(t.clone()),
        None => None,
    };
    ChatDecision { message: ResponseMessage { content, tool_calls }, finish }
}

/// The scripted reply to a call, if there is one that does not leave it to the built-in behaviour.
pub open spec fn scripted(scripts: Seq<Script>, user: Seq<char>, call_seq: u64) -> Option<
    DecisionView,
> {
    match user_of(user) {
        Some(u) => match script_of(scripts, u.who().handle(), u.who().spec_role()) {
            Some(i) => match response_at(scripts[i], call_seq) {
                Some(Response::Yield) => Some(said("Yielding."@)),
                Some(Response::Say(s)) => Some(say_reply(s, user, call_seq)),
                Some(Response::Fallthrough) => None,
                None => None,
            },
            None => None,
        },
        None => None,
    }
}

/// The reply of a scenario to a request.
pub open spec fn play(
    scripts: Seq<Script>,
    req: ChatRequest,
    user: Seq<char>,
    call_seq: u64,
    seed: u64,
) -> DecisionView {
    match scripted(scripts, user, call_seq) {
        Some(r) => r,
        None => arc_reply(req, user, call_seq, seed),
    }
}

/// Behaviour by scripts, and the built-in behaviour where they leave off.
#[derive(Debug)]
pub struct ScenarioPlayer {
    scenario: Scenario,
    arc: BuiltinArc,
}

impl ScenarioPlayer {
    /// The scripts.
    pub closed spec fn scripts(self) -> Seq<Script> {
        self.scenario.scripts@
    }

    /// Plays a scenario.
    pub fn new(scenario: Scenario) -> (r: ScenarioPlayer)
        ensures
            r.scripts() == scenario.scripts@,
    {
        ScenarioPlayer { scenario, arc: BuiltinArc::new() }
    }

    fn first_script(&self, handle: &str, role: Role, exact: bool) -> (r: Option<usize>)
        ensures
            match r {
                Some(i) => script_at(self.scripts(), handle@, role, exact, 0) == Some(i as int)
                    && i < self.scenario.scripts.len(),
                None => script_at(self.scripts(), handle@, role, exact, 0) is None,
            },
    {
        let mut i: usize = 0;
        while i < self.scenario.scripts.len()
            invariant
                0 <= i <= self.scenario.scripts.len(),
                script_at(self.scripts(), handle@, role, exact, 0) == script_at(
                    self.scripts(),
                    handle@,
                    role,
                    exact,
                    i as int,
                ),
            decreases self.scenario.scripts.len() - i,
        {
            let alone = match &self.scenario.scripts[i].agent {
                Selector::Exact(_) => true,
                _ => false,
            };
            if self.scenario.scripts[i].agent.matches(handle, role) && (!exact || alone) {
                return Some(i);
            }
            i = i + 1;
        }
        None
    }

    fn select(&self, handle: &str, role: Role) -> (r: Option<usize>)
        ensures
            match r {
                Some(i) => script_of(self.scripts(), handle@, role) == Some(i as int) && i
                    < self.scenario.scripts.len(),
                None => script_of(self.scripts(), handle@, role) is None,
            },
    {
        match self.first_script(handle, role, true) {
            Some(i) => Some(i),
            None => self.first_script(handle, role, false),
        }
    }
}

impl ScenarioPlayer {
    /// The scripted reply to a call, if there is one.
    fn scripted_reply(&self, id: &WireIdentity) -> (r: Option<ChatDecision>)
        ensures
            match r {
                Some(d) => scripted(self.scripts(), id.user@, id.call_seq) == Some(d@),
                None => scripted(self.scripts(), id.user@, id.call_seq) is None,
            },
    {
        let parsed = match ParsedUser::parse(id.user.as_str()) {
            Some(u) => u,
            None => {
                return None;
            },
        };
        let handle = parsed.agent().as_str();
        let i: usize = match self.select(handle.as_str(), parsed.role()) {
            Some(i) => i,
            None => {
                return None;
            },
        };
        match find_response(&self.scenario.scripts[i], id.call_seq) {
            Some(Response::Yield) => Some(say("Yielding.".to_owned())),
            Some(Response::Say(s)) => Some(realize_say(s, id)),
            Some(Response::Fallthrough) => None,
            None => None,
        }
    }
}

/// The reply of a script to a call, if it has one.
fn find_response(script: &Script, call_seq: u64) -> (r: Option<&Response>)
    ensures
        match r {
            Some(x) => response_at(*script, call_seq) == Some(*x),
            None => response_at(*script, call_seq) is None,
        },
{
    let seq: usize = if call_seq <= usize::MAX as u64 {
        call_seq as usize
    } else {
        usize::MAX
    };
    let n: usize = script.responses.len();
    if seq < n {
        Some(&script.responses[seq])
    } else if script.repeat.len() > 0 {
        let len: usize = script.repeat.len();
        let at: usize = (seq - n) % len;
        Some(&script.repeat[at])
    } else {
        None
    }
}

impl BehaviorModel for ScenarioPlayer {
    /// The call is scripted, or the built-in behaviour can decide on it.
    open spec fn accepts(&self, req: ChatRequest, user: Seq<char>, call_seq: u64) -> bool {
        scripted(self.scripts(), user, call_seq) is Some || countable(shown(req), user)
    }

    open spec fn decides(
        &self,
        req: ChatRequest,
        user: Seq<char>,
        call_seq: u64,
        seed: u64,
    ) -> DecisionView {
        play(self.scripts(), req, user, call_seq, seed)
    }

    fn can_answer(&self, req: &ChatRequest, id: &WireIdentity) -> (b: bool) {
        self.scripted_reply(id).is_some() || self.arc.can_answer(req, id)
    }

    fn chat(&self, req: &ChatRequest, id: &WireIdentity) -> (r: ChatDecision)
        ensures
            scripted(self.scripts(), id.user@, id.call_seq) is None ==> reply_within_budget(
                r@,
                *req,
                id.seed,
            ),
            scripted(self.scripts(), id.user@, id.call_seq) is None && r@.calls is None
                ==> r@.content is Some && worded(r@.content->0) && r@.content->0.len() > 0,
    {
        match self.scripted_reply(id) {
            Some(d) => d,
            None => self.arc.chat(req, id),
        }
    }
}

// ---------------------------------------------------------------------------
// Laws.
// ---------------------------------------------------------------------------

/// Replies of a scenario can be repeated: requests that hold the same, under one identity and one
/// seed, get the same reply.
pub proof fn same_requests_play_the_same(
    scripts: Seq<Script>,
    req: ChatRequest,
    other: ChatRequest,
    user: Seq<char>,
    call_seq: u64,
    seed: u64,
)
    requires
        same_request(req, other),
    ensures
        play(scripts, req, user, call_seq, seed) == play(scripts, other, user, call_seq, seed),
{
    same_requests_get_the_same_reply(req, other, user, call_seq, seed);
}

/// Where a script has a reply of its own, the seed and the content of the request do not matter.
pub proof fn scripted_replies_ignore_seed_and_content(
    scripts: Seq<Script>,
    req: ChatRequest,
    other: ChatRequest,
    user: Seq<char>,
    call_seq: u64,
    seed: u64,
    other_seed: u64,
)
    requires
        scripted(scripts, user, call_seq) is Some,
    ensures
        play(scripts, req, user, call_seq, seed) == play(
            scripts,
            other,
            user,
            call_seq,
            other_seed,
        ),
{
}

/// A script for one agent alone beats every script for its role.
pub proof fn exact_scripts_win(scripts: Seq<Script>, handle: Seq<char>, role: Role, k: int)
    requires
        0 <= k < scripts.len(),
        scripts[k].agent is Exact,
        scripts[k].agent->Exact_0@ == handle,
    ensures
        script_of(scripts, handle, role) is Some,
        scripts[script_of(scripts, handle, role)->0].agent is Exact,
        script_of(scripts, handle, role)->0 <= k,
{
    lemma_script_at(scripts, handle, role, 0, k);
}

proof fn lemma_script_at(scripts: Seq<Script>, handle: Seq<char>, role: Role, i: int, k: int)
    requires
        0 <= i <= k < scripts.len(),
        scripts[k].agent is Exact,
        scripts[k].agent->Exact_0@ == handle,
    ensures
        script_at(scripts, handle, role, true, i) is Some,
        i <= script_at(scripts, handle, role, true, i)->0 <= k,
        scripts[script_at(scripts, handle, role, true, i)->0].agent is Exact,
    decreases k - i,
{
    if i < k {
        lemma_script_at(scripts, handle, role, i + 1, k);
    }
}

/// Past its list a script repeats: a call and the one that comes a whole cycle later get the same
/// reply.
pub proof fn repeats_cycle(script: Script, call_seq: u64)
    requires
        script.repeat.len() > 0,
        script.responses.len() <= call_seq,
        call_seq + script.repeat.len() <= usize::MAX,
        call_seq + script.repeat.len() <= u64::MAX,
    ensures
        response_at(script, call_seq) == response_at(
            script,
            (call_seq + script.repeat.len()) as u64,
        ),
{
    let n = script.responses.len() as int;
    let r = script.repeat.len() as int;
    let a = call_seq - n;
    assert((a + r) % r == a % r) by (nonlinear_arith)
        requires
            r > 0,
            a >= 0,
    ;
}

} // verus!
