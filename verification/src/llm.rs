//! The request side of an agent: its identity text, its call counter, and how replies and endpoints
//! are classified.
use crate::agent::{AgentId, ParsedUser, SpecialtySlug, UserView};
use crate::knowledge::EmbedError;
use crate::text::{byte_len, chars_of, dec, dec_text};
use crate::wire::ApiError;
use vstd::prelude::*;

verus! {

// ---------------------------------------------------------------------------
// Outside calls that are believed.
// ---------------------------------------------------------------------------

/// The path of a text that is a URL.
pub uninterp spec fn url_path(url: Seq<char>) -> Option<Seq<char>>;

/// The URL that comes of replacing the path of a text that is a URL.
pub uninterp spec fn url_with_path(url: Seq<char>, path: Seq<char>) -> Option<Seq<char>>;

/// The URL that a reference denotes against a base, or why there is none.
pub uninterp spec fn url_joined(base: Seq<char>, reference: Seq<char>) -> Result<
    Seq<char>,
    Seq<char>,
>;

/// An optional text.
spec fn text_in(o: Option<String>) -> Option<Seq<char>> {
    match o {
        Some(t) => Some(t@),
        None => None,
    }
}

/// `Url::parse`, then `Url::path`: the path of a URL as it is written, or nothing for a text that is
/// no URL. The parser writes at most three bytes of path for a byte of the text, and adds a few
/// slashes of its own: at the start, and behind the drive letter of a file.
#[verifier::external_body]
fn path_of_url(url: &str) -> (r: Option<String>)
    ensures
        text_in(r) == url_path(url@),
        r matches Some(p) ==> byte_len(p@) <= 3 * byte_len(url@) + 16,
{
    url::Url::parse(url).ok().map(|u| u.path().to_owned())
}

/// `Url::parse`, then `Url::set_path`: the URL with another path, or nothing for a text that is no
/// URL. The call panics where the URL would reach four gigabytes. The bounds leave that out: a byte of a
/// path is written in at most three, and a byte of a host, whose labels may be mapped and spelled in
/// ASCII, in at most twelve.
#[verifier::external_body]
fn url_at_path(url: &str, path: &str) -> (r: Option<String>)
    requires
        byte_len(url@) <= URL_LIMIT,
        byte_len(path@) <= PATH_LIMIT,
    ensures
        text_in(r) == url_with_path(url@, path@),
{
    let mut u = url::Url::parse(url).ok()?;
    u.set_path(path);
    Some(u.to_string())
}

/// `Url::parse`, then `Url::join`: the URL that a reference denotes against a base, or the error of
/// either call in words.
#[verifier::external_body]
fn join_url(base: &str, reference: &str) -> (r: Result<String, String>)
    ensures
        match r {
            Ok(u) => url_joined(base@, reference@) == Ok::<Seq<char>, Seq<char>>(u@),
            Err(e) => url_joined(base@, reference@) == Err::<Seq<char>, Seq<char>>(e@),
        },
{
    match url::Url::parse(base) {
        Ok(b) => b.join(reference).map(|u| u.to_string()).map_err(|e| e.to_string()),
        Err(e) => Err(e.to_string()),
    }
}

/// The most bytes of a URL whose path can be replaced: twelve times as many for the URL, and three times
/// as many as [`PATH_LIMIT`] for the path, stay below four gigabytes, where the outside call would panic.
pub const URL_LIMIT: usize = 0x0c30_0000;

/// The most bytes of a path that is put into such a URL: three times as many and a few.
pub const PATH_LIMIT: usize = 0x2490_0011;

/// The header that carries the call sequence number.
pub const HEADER_CALL_SEQ: &'static str = "X-OpenTeam-Call-Seq";

/// The header that carries the seed.
pub const HEADER_SEED: &'static str = "X-OpenTeam-Seed";

/// Who makes a request, and which one it is.
#[derive(PartialEq, Eq, Debug)]
pub struct WireIdentity {
    /// The identity text.
    pub user: String,
    /// The number of the call, from zero for each agent.
    pub call_seq: u64,
    /// The seed of the run.
    pub seed: u64,
}

/// An agent's line to the model: it numbers the agent's calls and renders its identity. The numbers
/// keep climbing when the specialty changes.
#[derive(Debug)]
pub struct AgentChannel {
    agent: AgentId,
    specialty: SpecialtySlug,
    seed: u64,
    call_seq: u64,
}

/// A channel in specifications.
pub struct ChannelView {
    /// Whose channel.
    pub agent: AgentId,
    /// The specialty that the identity shows.
    pub specialty: Seq<char>,
    /// The seed of the run.
    pub seed: u64,
    /// The number of the next call.
    pub call_seq: u64,
}

impl View for AgentChannel {
    type V = ChannelView;

    closed spec fn view(&self) -> ChannelView {
        ChannelView {
            agent: self.agent,
            specialty: self.specialty@,
            seed: self.seed,
            call_seq: self.call_seq,
        }
    }
}

impl ChannelView {
    /// The identity that the channel renders.
    pub open spec fn user(self) -> UserView {
        match self.agent {
            AgentId::Orchestrator => UserView::Orchestrator,
            AgentId::Team(_) => UserView::TeamAgent {
                agent: self.agent,
                specialty: self.specialty,
            },
            AgentId::Meta(_) => UserView::MetaAgent { agent: self.agent },
        }
    }
}

impl AgentChannel {
    /// A channel whose first call has number zero and whose agent is a generalist.
    pub fn new(agent: AgentId, seed: u64) -> (c: AgentChannel)
        ensures
            c@ == (ChannelView { agent, specialty: "generalist"@, seed, call_seq: 0 }),
    {
        AgentChannel { agent, specialty: SpecialtySlug::generalist(), seed, call_seq: 0 }
    }

    /// Whose channel.
    pub fn agent(&self) -> (id: AgentId)
        ensures
            id == self@.agent,
    {
        self.agent
    }

    /// The number of the next call.
    pub fn next_call_seq(&self) -> (n: u64)
        ensures
            n == self@.call_seq,
    {
        self.call_seq
    }

    /// Changes the specialty that the identity shows; the numbering goes on.
    pub fn set_specialty(&mut self, slug: SpecialtySlug)
        ensures
            final(self)@ == (ChannelView { specialty: slug@, ..old(self)@ }),
    {
        self.specialty = slug;
    }

    /// The identity text.
    pub fn rendered_user(&self) -> (s: String)
        ensures
            s@ == self@.user().text(),
    {
        match self.agent {
            AgentId::Orchestrator => ParsedUser::Orchestrator.render(),
            AgentId::Meta(_) => ParsedUser::MetaAgent { agent: self.agent }.render(),
            AgentId::Team(_) => ParsedUser::TeamAgent {
                agent: self.agent,
                specialty: self.specialty.clone(),
            }.render(),
        }
    }

    /// The identity of the next call; the one after it gets the next number.
    pub fn next_identity(&mut self) -> (id: WireIdentity)
        requires
            old(self)@.call_seq < u64::MAX,
        ensures
            id.user@ == old(self)@.user().text(),
            id.call_seq == old(self)@.call_seq,
            id.seed == old(self)@.seed,
            final(self)@ == (ChannelView {
                call_seq: (old(self)@.call_seq + 1) as u64,
                ..old(self)@
            }),
    {
        let id = WireIdentity {
            user: self.rendered_user(),
            call_seq: self.call_seq,
            seed: self.seed,
        };
        self.call_seq = self.call_seq + 1;
        id
    }
}

/// A path with a slash at its end.
pub open spec fn slashed(path: Seq<char>) -> Seq<char> {
    if path.len() > 0 && path.last() == '/' {
        path
    } else {
        path.push('/')
    }
}

fn slashed_path(path: &str) -> (r: String)
    ensures
        r@ == slashed(path@),
{
    let v = chars_of(path);
    if v.len() > 0 && v[v.len() - 1] == '/' {
        path.to_owned()
    } else {
        let mut r = path.to_owned();
        r.push('/');
        r
    }
}

/// A base URL with a slash at the end of its path, so that relative endpoints join under it instead
/// of replacing its last segment.
pub open spec fn based(url: Seq<char>) -> Option<Seq<char>> {
    match url_path(url) {
        Some(p) => if p.len() > 0 && p.last() == '/' {
            Some(url)
        } else {
            url_with_path(url, slashed(p))
        },
        None => None,
    }
}

/// Puts a slash at the end of the path of a base URL. There is no result for a text that is no URL.
pub fn with_trailing_slash(url: &str) -> (r: Option<String>)
    requires
        byte_len(url@) <= URL_LIMIT,
    ensures
        match r {
            Some(b) => based(url@) == Some(b@),
            None => based(url@) is None,
        },
{
    match path_of_url(url) {
        Some(p) => {
            let v = chars_of(p.as_str());
            if v.len() > 0 && v[v.len() - 1] == '/' {
                return Some(url.to_owned());
            }
            let path = slashed_path(p.as_str());
            let bytes: usize = p.as_str().as_bytes().len();
            proof {
                lemma_slash_bytes(p@);
            }
            assert(vstd::utf8::encode_utf8(path@).len() == bytes + 1);
            url_at_path(url, path.as_str())
        },
        None => None,
    }
}

/// A slash is one byte.
proof fn lemma_slash_bytes(s: Seq<char>)
    ensures
        vstd::utf8::encode_utf8(s.push('/')).len() == vstd::utf8::encode_utf8(s).len() + 1,
    decreases s.len(),
{
    let t = s.push('/');
    if s.len() == 0 {
        let one = seq!['/'];
        assert(t =~= one);
        vstd::utf8::is_ascii_chars_encode_utf8(one);
    } else {
        lemma_slash_bytes(s.drop_first());
        assert(t.drop_first() =~= s.drop_first().push('/'));
    }
}

/// Why a call of the model failed.
#[derive(PartialEq, Eq, Debug)]
pub enum LlmError {
    /// The endpoint answered with an error.
    Http { status: u16, error: ApiError },
    /// The endpoint could not be reached.
    Transport(String),
    /// The answer does not read.
    Malformed(String),
}

impl LlmError {
    /// The error in words.
    pub open spec fn text(self) -> Seq<char> {
        match self {
            LlmError::Http { status, error } => "llm endpoint returned "@ + dec(status as nat)
                + ": "@ + error.message@,
            LlmError::Transport(e) => "llm transport error: "@ + e@,
            LlmError::Malformed(e) => "malformed llm response: "@ + e@,
        }
    }

    /// The error in words.
    pub fn message(&self) -> (s: String)
        ensures
            s@ == self.text(),
    {
        match self {
            LlmError::Http { status, error } => {
                let mut s = "llm endpoint returned ".to_owned();
                s.push_str(dec_text(*status as u64).as_str());
                s.push_str(": ");
                s.push_str(error.message.as_str());
                s
            },
            LlmError::Transport(e) => {
                let mut s = "llm transport error: ".to_owned();
                s.push_str(e.as_str());
                s
            },
            LlmError::Malformed(e) => {
                let mut s = "malformed llm response: ".to_owned();
                s.push_str(e.as_str());
                s
            },
        }
    }
}

/// The endpoint, or the error, that comes of joining a reference to a base.
pub fn endpoint_from(joined: Result<String, String>) -> (r: Result<String, LlmError>)
    ensures
        match joined {
            Ok(u) => r == Ok::<String, LlmError>(u),
            Err(e) => r matches Err(LlmError::Transport(m)) && m@ == "bad endpoint url: "@ + e@,
        },
{
    match joined {
        Ok(u) => Ok(u),
        Err(e) => {
            let mut m = "bad endpoint url: ".to_owned();
            m.push_str(e.as_str());
            Err(LlmError::Transport(m))
        },
    }
}

/// The URL of an endpoint under a base URL.
pub fn endpoint(base: &str, path: &str) -> (r: Result<String, LlmError>)
    ensures
        match url_joined(base@, path@) {
            Ok(u) => r matches Ok(t) && t@ == u,
            Err(e) => r matches Err(LlmError::Transport(m)) && m@ == "bad endpoint url: "@ + e,
        },
{
    endpoint_from(join_url(base, path))
}

/// The error that an answer with a failing status carries: the one in its body, or else the body
/// itself.
pub fn fault(status: u16, error: Option<ApiError>, body: String) -> (e: LlmError)
    ensures
        match error {
            Some(x) => e == (LlmError::Http { status, error: x }),
            None => {
                &&& e is Http
                &&& e->status == status
                &&& e->error.message == body
                &&& e->error.kind@ == "invalid_request_error"@
                &&& e->error.param is None
                &&& e->error.code is None
            },
        },
{
    match error {
        Some(error) => LlmError::Http { status, error },
        None => LlmError::Http { status, error: ApiError::invalid_request(body, None) },
    }
}

/// The vector that an answer to a request for one embedding carries.
pub fn first_vector<V>(vectors: Vec<V>) -> (r: Result<V, EmbedError>)
    ensures
        vectors@.len() > 0 ==> r == Ok::<V, EmbedError>(vectors@[0]),
        vectors@.len() == 0 ==> (r matches Err(EmbedError::Backend(m)) && m@
            == "empty embeddings response"@),
{
    let mut vs = vectors;
    if vs.len() == 0 {
        return Err(EmbedError::Backend("empty embeddings response".to_owned()));
    }
    Ok(vs.swap_remove(0))
}

/// How the model is reached.
#[derive(PartialEq, Eq, Debug)]
pub struct LlmConfig {
    /// The base URL, unless the model runs in this process.
    pub base_url: Option<String>,
    /// The key.
    pub api_key: Option<String>,
    /// The model.
    pub model: String,
    /// The embedding model.
    pub embedding_model: String,
}

/// What a reply's status says of its body.
#[derive(Clone, Copy, PartialEq, Eq, Structural, Debug)]
pub enum ReplyKind {
    /// The body should hold the answer.
    Answer,
    /// The body should hold an error.
    Fault,
}

/// Classifies a reply: a status from 200 to 299 announces an answer, any other a fault.
pub fn classify_status(status: u16) -> (k: ReplyKind)
    ensures
        k == (if 200 <= status < 300 {
            ReplyKind::Answer
        } else {
            ReplyKind::Fault
        }),
{
    if 200 <= status && status < 300 {
        ReplyKind::Answer
    } else {
        ReplyKind::Fault
    }
}

/// The base of an endpoint ends in a slash: a URL whose path has one is kept as it is, and any other
/// gets its own path with a slash behind it. What is no URL has no base.
pub proof fn bases_end_in_a_slash(url: Seq<char>, path: Seq<char>)
    ensures
        url_path(url) == Some(path.push('/')) ==> based(url) == Some(url),
        url_path(url) == Some(path) && (path.len() == 0 || path.last() != '/') ==> based(url)
            == url_with_path(url, path.push('/')),
        url_path(url) is None ==> based(url) is None,
{
    assert(path.push('/').last() == '/');
}

/// An error of the model tells its cause last, and whose error it is first.
pub proof fn model_errors_tell_their_cause(e: LlmError)
    ensures
        match e {
            LlmError::Http { status, error } => error.message@.is_suffix_of(e.text()) && (
            "llm endpoint returned "@ + dec(status as nat)).is_prefix_of(e.text()),
            LlmError::Transport(cause) => e.text() == "llm transport error: "@ + cause@,
            LlmError::Malformed(cause) => e.text() == "malformed llm response: "@ + cause@,
        },
{
    if let LlmError::Http { status, error } = e {
        let front = "llm endpoint returned "@ + dec(status as nat);
        assert(e.text() =~= front + (": "@ + error.message@));
    }
}

} // verus!
