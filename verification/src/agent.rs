//! Who takes part in a run: handles, roles, specialties, and the identity text that a request
//! carries.
use crate::text::{
    after_prefix, chars_of, dec, dec_text, lemma_dec, lemma_split_at_char, number, number_of_dec,
    parse_number, spells, split_first, split_once, strip_prefix, text_of,
};
use vstd::prelude::*;

verus! {

/// What an agent is for.
#[derive(Clone, Copy, PartialEq, Eq, Structural, Debug, Hash)]
pub enum Role {
    /// Authors tasks and teams, and finishes the run.
    Orchestrator,
    /// Claims and completes tasks.
    TeamAgent,
    /// Observes the run and issues directives.
    MetaAgent,
}

/// An agent's handle: `orchestrator`, `agent-<n>` or `meta-<n>`.
#[derive(Clone, Copy, PartialEq, Eq, PartialOrd, Ord, Hash, Structural, Debug)]
pub enum AgentId {
    /// The one orchestrator.
    Orchestrator,
    /// A team agent, by number.
    Team(u64),
    /// A meta-agent, by number.
    Meta(u64),
}

/// The number a text denotes, if it is the number's own decimal rendering.
pub open spec fn plain_number(s: Seq<char>) -> Option<u64> {
    match number(s, u64::MAX as nat) {
        Some(n) => if dec(n) == s {
            Some(n as u64)
        } else {
            None
        },
        None => None,
    }
}

/// The agent that a handle names.
pub open spec fn handle_agent(s: Seq<char>) -> Option<AgentId> {
    if s == "orchestrator"@ {
        Some(AgentId::Orchestrator)
    } else if after_prefix(s, "agent-"@) is Some {
        match plain_number(after_prefix(s, "agent-"@)->0) {
            Some(n) => Some(AgentId::Team(n)),
            None => None,
        }
    } else if after_prefix(s, "meta-"@) is Some {
        match plain_number(after_prefix(s, "meta-"@)->0) {
            Some(n) => Some(AgentId::Meta(n)),
            None => None,
        }
    } else {
        None
    }
}

/// Reads a number in its own decimal rendering.
fn read_plain_number(s: &[char]) -> (r: Option<u64>)
    ensures
        r == plain_number(s@),
{
    match parse_number(s, u64::MAX) {
        Some(n) => if spells(s, dec_text(n).as_str()) {
            Some(n)
        } else {
            None
        },
        None => None,
    }
}

impl AgentId {
    /// The handle as text.
    pub open spec fn handle(self) -> Seq<char> {
        match self {
            AgentId::Orchestrator => "orchestrator"@,
            AgentId::Team(n) => "agent-"@ + dec(n as nat),
            AgentId::Meta(n) => "meta-"@ + dec(n as nat),
        }
    }

    /// The role that the handle tells.
    pub open spec fn spec_role(self) -> Role {
        match self {
            AgentId::Orchestrator => Role::Orchestrator,
            AgentId::Team(_) => Role::TeamAgent,
            AgentId::Meta(_) => Role::MetaAgent,
        }
    }

    /// The orchestrator.
    pub fn orchestrator() -> (id: AgentId)
        ensures
            id == AgentId::Orchestrator,
    {
        AgentId::Orchestrator
    }

    /// Team agent number `n`.
    pub fn team(n: u64) -> (id: AgentId)
        ensures
            id == AgentId::Team(n),
    {
        AgentId::Team(n)
    }

    /// Meta-agent number `n`.
    pub fn meta(n: u64) -> (id: AgentId)
        ensures
            id == AgentId::Meta(n),
    {
        AgentId::Meta(n)
    }

    /// The handle as text.
    pub fn as_str(&self) -> (s: String)
        ensures
            s@ == self.handle(),
    {
        match *self {
            AgentId::Orchestrator => "orchestrator".to_owned(),
            AgentId::Team(n) => {
                let mut s = "agent-".to_owned();
                s.push_str(dec_text(n).as_str());
                s
            },
            AgentId::Meta(n) => {
                let mut s = "meta-".to_owned();
                s.push_str(dec_text(n).as_str());
                s
            },
        }
    }

    /// The role that the handle tells.
    pub fn role(&self) -> (r: Role)
        ensures
            r == self.spec_role(),
    {
        match self {
            AgentId::Orchestrator => Role::Orchestrator,
            AgentId::Team(_) => Role::TeamAgent,
            AgentId::Meta(_) => Role::MetaAgent,
        }
    }

    /// Reads a handle.
    pub fn parse(handle: &str) -> (r: Option<AgentId>)
        ensures
            r == handle_agent(handle@),
    {
        let v = chars_of(handle);
        let s = v.as_slice();
        if spells(s, "orchestrator") {
            Some(AgentId::Orchestrator)
        } else if let Some(rest) = strip_prefix(s, "agent-") {
            match read_plain_number(rest) {
                Some(n) => Some(AgentId::Team(n)),
                None => None,
            }
        } else if let Some(rest) = strip_prefix(s, "meta-") {
            match read_plain_number(rest) {
                Some(n) => Some(AgentId::Meta(n)),
                None => None,
            }
        } else {
            None
        }
    }
}

/// Reading an agent's handle gives the agent back.
pub proof fn handle_reads_back(id: AgentId)
    ensures
        handle_agent(id.handle()) == Some(id),
{
    reveal_strlit("orchestrator");
    reveal_strlit("agent-");
    reveal_strlit("meta-");
    match id {
        AgentId::Orchestrator => {},
        AgentId::Team(n) => {
            number_of_dec(n as nat, u64::MAX as nat);
            let s = id.handle();
            assert(s[0] == 'a');
            assert(s.take(6) =~= "agent-"@);
            assert(s.skip(6) =~= dec(n as nat));
        },
        AgentId::Meta(n) => {
            number_of_dec(n as nat, u64::MAX as nat);
            let s = id.handle();
            assert(s[0] == 'm');
            assert(s.take(6)[0] == 'm');
            assert(s.take(5) =~= "meta-"@);
            assert(s.skip(5) =~= dec(n as nat));
        },
    }
}

/// A text that reads as an agent's handle is that agent's handle: nothing else is taken for one.
pub proof fn only_handles_are_read(s: Seq<char>)
    ensures
        handle_agent(s) matches Some(id) ==> id.handle() == s,
{
    if let Some(id) = handle_agent(s) {
        match id {
            AgentId::Orchestrator => {},
            AgentId::Team(n) => {
                assert(s =~= s.take("agent-"@.len() as int) + s.skip("agent-"@.len() as int));
            },
            AgentId::Meta(n) => {
                assert(s =~= s.take("meta-"@.len() as int) + s.skip("meta-"@.len() as int));
            },
        }
    }
}

/// Different agents have different handles.
pub proof fn handles_differ(a: AgentId, b: AgentId)
    requires
        a.handle() == b.handle(),
    ensures
        a == b,
{
    handle_reads_back(a);
    handle_reads_back(b);
}

/// A specialty slug: lower-case letters, digits and hyphens, starting and ending in none of the
/// hyphens and never with two in a row.
#[derive(PartialEq, Eq, PartialOrd, Ord, Hash, Debug)]
pub struct SpecialtySlug {
    slug: String,
}

/// A character that a slug is made of, hyphens aside.
pub open spec fn slug_char(c: char) -> bool {
    ('a' <= c && c <= 'z') || ('0' <= c && c <= '9')
}

/// A text that names a specialty.
pub open spec fn is_slug(s: Seq<char>) -> bool {
    &&& s.len() > 0
    &&& slug_char(s[0])
    &&& slug_char(s.last())
    &&& forall|i: int| 0 <= i < s.len() ==> slug_char(#[trigger] s[i]) || (s[i] == '-')
    &&& forall|i: int| 0 <= i < s.len() - 1 ==> !(#[trigger] s[i] == '-' && s[i + 1] == '-')
}

impl View for SpecialtySlug {
    type V = Seq<char>;

    closed spec fn view(&self) -> Seq<char> {
        self.slug@
    }
}

impl Clone for SpecialtySlug {
    fn clone(&self) -> (r: SpecialtySlug)
        ensures
            r == *self,
    {
        SpecialtySlug { slug: self.slug.clone() }
    }
}

impl SpecialtySlug {
    /// The specialty that every agent starts with.
    pub fn generalist() -> (r: SpecialtySlug)
        ensures
            r@ == "generalist"@,
    {
        SpecialtySlug { slug: "generalist".to_owned() }
    }

    /// Reads a slug.
    pub fn parse(s: &str) -> (r: Option<SpecialtySlug>)
        ensures
            match r {
                Some(slug) => is_slug(s@) && slug@ == s@,
                None => !is_slug(s@),
            },
    {
        let v = chars_of(s);
        if v.len() == 0 {
            return None;
        }
        let mut i: usize = 0;
        let mut after_hyphen: bool = true;
        while i < v.len()
            invariant
                0 <= i <= v.len(),
                v.len() > 0,
                v@ == s@,
                after_hyphen == (i == 0 || s@[i - 1] == '-'),
                i > 0 ==> slug_char(s@[0]),
                forall|k: int| 0 <= k < i ==> slug_char(#[trigger] s@[k]) || s@[k] == '-',
                forall|k: int| 0 <= k < i - 1 ==> !(#[trigger] s@[k] == '-' && s@[k + 1] == '-'),
            decreases v.len() - i,
        {
            let c: char = v[i];
            if c == '-' {
                if after_hyphen {
                    assert(i > 0 ==> s@[i - 1] == '-' && s@[i - 1 + 1] == '-');
                    return None;
                }
                after_hyphen = true;
            } else if ('a' <= c && c <= 'z') || ('0' <= c && c <= '9') {
                after_hyphen = false;
            } else {
                assert(!slug_char(s@[i as int]) && s@[i as int] != '-');
                return None;
            }
            i = i + 1;
        }
        if after_hyphen {
            None
        } else {
            Some(SpecialtySlug { slug: s.to_owned() })
        }
    }

    /// The slug as text.
    pub fn as_str(&self) -> (s: &str)
        ensures
            s@ == self@,
    {
        self.slug.as_str()
    }
}

/// The identity text of a request, read: a role, the agent, and for a team agent its specialty.
#[derive(PartialEq, Eq, Debug)]
pub enum ParsedUser {
    /// `orchestrator`
    Orchestrator,
    /// `team-agent:<handle>:<slug>`
    TeamAgent {
        /// Who.
        agent: AgentId,
        /// As what.
        specialty: SpecialtySlug,
    },
    /// `meta-agent:<handle>`
    MetaAgent {
        /// Who.
        agent: AgentId,
    },
}

/// What an identity text says.
pub enum UserView {
    /// The orchestrator.
    Orchestrator,
    /// A team agent and its slug.
    TeamAgent { agent: AgentId, specialty: Seq<char> },
    /// A meta-agent.
    MetaAgent { agent: AgentId },
}

impl View for ParsedUser {
    type V = UserView;

    open spec fn view(&self) -> UserView {
        match self {
            ParsedUser::Orchestrator => UserView::Orchestrator,
            ParsedUser::TeamAgent { agent, specialty } => UserView::TeamAgent {
                agent: *agent,
                specialty: specialty@,
            },
            ParsedUser::MetaAgent { agent } => UserView::MetaAgent { agent: *agent },
        }
    }
}

impl UserView {
    /// The identity text.
    pub open spec fn text(self) -> Seq<char> {
        match self {
            UserView::Orchestrator => "orchestrator"@,
            UserView::TeamAgent { agent, specialty } => "team-agent:"@ + agent.handle() + ":"@
                + specialty,
            UserView::MetaAgent { agent } => "meta-agent:"@ + agent.handle(),
        }
    }

    /// Roles and handles agree, and the slug is one.
    pub open spec fn valid(self) -> bool {
        match self {
            UserView::Orchestrator => true,
            UserView::TeamAgent { agent, specialty } => agent is Team && is_slug(specialty),
            UserView::MetaAgent { agent } => agent is Meta,
        }
    }

    /// The agent.
    pub open spec fn who(self) -> AgentId {
        match self {
            UserView::Orchestrator => AgentId::Orchestrator,
            UserView::TeamAgent { agent, .. } => agent,
            UserView::MetaAgent { agent } => agent,
        }
    }
}

/// An identity text read.
pub open spec fn user_of(s: Seq<char>) -> Option<UserView> {
    if s == "orchestrator"@ {
        Some(UserView::Orchestrator)
    } else if after_prefix(s, "team-agent:"@) is Some {
        match split_once(after_prefix(s, "team-agent:"@)->0, ":"@) {
            Some((handle, slug)) => match handle_agent(handle) {
                Some(AgentId::Team(n)) => if is_slug(slug) {
                    Some(UserView::TeamAgent { agent: AgentId::Team(n), specialty: slug })
                } else {
                    None
                },
                _ => None,
            },
            None => None,
        }
    } else if after_prefix(s, "meta-agent:"@) is Some {
        match handle_agent(after_prefix(s, "meta-agent:"@)->0) {
            Some(AgentId::Meta(n)) => Some(UserView::MetaAgent { agent: AgentId::Meta(n) }),
            _ => None,
        }
    } else {
        None
    }
}

impl ParsedUser {
    /// Reads an identity text.
    pub fn parse(user: &str) -> (r: Option<ParsedUser>)
        ensures
            match r {
                Some(u) => user_of(user@) == Some(u@),
                None => user_of(user@) is None,
            },
    {
        let v = chars_of(user);
        let s = v.as_slice();
        if spells(s, "orchestrator") {
            return Some(ParsedUser::Orchestrator);
        }
        if let Some(rest) = strip_prefix(s, "team-agent:") {
            if let Some((handle, slug)) = split_first(rest, ":") {
                let handle_text = text_of(handle);
                let slug_text = text_of(slug);
                if let Some(AgentId::Team(n)) = AgentId::parse(handle_text.as_str()) {
                    if let Some(specialty) = SpecialtySlug::parse(slug_text.as_str()) {
                        return Some(ParsedUser::TeamAgent { agent: AgentId::Team(n), specialty });
                    }
                }
            }
            return None;
        }
        if let Some(rest) = strip_prefix(s, "meta-agent:") {
            let handle_text = text_of(rest);
            if let Some(AgentId::Meta(n)) = AgentId::parse(handle_text.as_str()) {
                return Some(ParsedUser::MetaAgent { agent: AgentId::Meta(n) });
            }
        }
        None
    }

    /// Renders the identity text.
    pub fn render(&self) -> (s: String)
        ensures
            s@ == self@.text(),
    {
        match self {
            ParsedUser::Orchestrator => "orchestrator".to_owned(),
            ParsedUser::TeamAgent { agent, specialty } => {
                let mut s = "team-agent:".to_owned();
                s.push_str(agent.as_str().as_str());
                s.push_str(":");
                s.push_str(specialty.as_str());
                s
            },
            ParsedUser::MetaAgent { agent } => {
                let mut s = "meta-agent:".to_owned();
                s.push_str(agent.as_str().as_str());
                s
            },
        }
    }

    /// The agent that the identity names.
    pub fn agent(&self) -> (id: AgentId)
        ensures
            id == self@.who(),
    {
        match self {
            ParsedUser::Orchestrator => AgentId::Orchestrator,
            ParsedUser::TeamAgent { agent, .. } => *agent,
            ParsedUser::MetaAgent { agent } => *agent,
        }
    }

    /// The role that the identity tells.
    pub fn role(&self) -> (r: Role)
        ensures
            r == (match self@ {
                UserView::Orchestrator => Role::Orchestrator,
                UserView::TeamAgent { .. } => Role::TeamAgent,
                UserView::MetaAgent { .. } => Role::MetaAgent,
            }),
    {
        match self {
            ParsedUser::Orchestrator => Role::Orchestrator,
            ParsedUser::TeamAgent { .. } => Role::TeamAgent,
            ParsedUser::MetaAgent { .. } => Role::MetaAgent,
        }
    }
}

/// Reading a rendered identity gives the identity back.
pub proof fn user_reads_back(u: UserView)
    requires
        u.valid(),
    ensures
        user_of(u.text()) == Some(u),
{
    reveal_strlit("orchestrator");
    reveal_strlit("team-agent:");
    reveal_strlit("meta-agent:");
    reveal_strlit("agent-");
    reveal_strlit(":");
    let s = u.text();
    handle_reads_back(u.who());
    match u {
        UserView::Orchestrator => {},
        UserView::TeamAgent { agent, specialty } => {
            let n = agent->Team_0;
            assert(s[0] == 't');
            assert(s.take(11) =~= "team-agent:"@);
            assert(s.skip(11) =~= agent.handle() + seq![':'] + specialty);
            assert(":"@ =~= seq![':']);
            lemma_dec(n as nat);
            let h = agent.handle();
            assert(!h.contains(':')) by {
                if h.contains(':') {
                    let i = choose|i: int| 0 <= i < h.len() && h[i] == ':';
                    if i >= 6 {
                        assert(h[i] == dec(n as nat)[i - 6]);
                    }
                }
            }
            lemma_split_at_char(h, ':', specialty);
        },
        UserView::MetaAgent { agent } => {
            assert(s[0] == 'm');
            assert(s.take(11)[0] == 'm');
            assert(s.take(11) =~= "meta-agent:"@);
            assert(s.skip(11) =~= agent.handle());
        },
    }
}

} // verus!
