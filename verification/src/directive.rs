//! Directives: a meta-agent's instructions to improve the process.
//!
//! A mechanical directive is applied by the runtime at once. A judgment directive goes to the
//! orchestrator, which acts on it citing its id, or declines it with a reason.
use crate::agent::AgentId;
use crate::ids::DirectiveId;
use crate::json::{fields_view, find_key, items_view, key_at, lemma_fields, Json, JsonView};
use crate::text::{chars_of, dec, dec_text, join, joined, same, texts};
use vstd::prelude::*;

verus! {

/// Which authority a directive goes to.
#[derive(Clone, Copy, PartialEq, Eq, Structural, Debug, Hash)]
pub enum DirectiveTier {
    /// The orchestrator decides.
    Judgment,
    /// The runtime applies it.
    Mechanical,
}

impl DirectiveTier {
    /// The tier's name.
    pub open spec fn name(self) -> Seq<char> {
        match self {
            DirectiveTier::Judgment => "judgment"@,
            DirectiveTier::Mechanical => "mechanical"@,
        }
    }

    /// The tier's name.
    pub fn as_str(&self) -> (s: &'static str)
        ensures
            s@ == self.name(),
    {
        match self {
            DirectiveTier::Judgment => "judgment",
            DirectiveTier::Mechanical => "mechanical",
        }
    }
}

/// The six directive verbs.
#[derive(Clone, Copy, PartialEq, Eq, Structural, Debug, Hash)]
pub enum DirectiveKind {
    /// Change how many team agents work at once.
    SetParallelism,
    /// Put an idle agent to sleep.
    SleepAgent,
    /// Wake an agent.
    WakeAgent,
    /// Propose another specialty for an agent.
    ProposeRespecialize,
    /// Propose to take a task from its claimant.
    ProposeReallocate,
    /// Propose another membership for a team.
    ProposeRebalance,
}

impl DirectiveKind {
    /// The verb's name.
    pub open spec fn name(self) -> Seq<char> {
        match self {
            DirectiveKind::SetParallelism => "set_parallelism"@,
            DirectiveKind::SleepAgent => "sleep_agent"@,
            DirectiveKind::WakeAgent => "wake_agent"@,
            DirectiveKind::ProposeRespecialize => "propose_respecialize"@,
            DirectiveKind::ProposeReallocate => "propose_reallocate"@,
            DirectiveKind::ProposeRebalance => "propose_rebalance"@,
        }
    }

    /// The verb's tier.
    pub open spec fn spec_tier(self) -> DirectiveTier {
        match self {
            DirectiveKind::SetParallelism => DirectiveTier::Mechanical,
            DirectiveKind::SleepAgent => DirectiveTier::Mechanical,
            DirectiveKind::WakeAgent => DirectiveTier::Mechanical,
            DirectiveKind::ProposeRespecialize => DirectiveTier::Judgment,
            DirectiveKind::ProposeReallocate => DirectiveTier::Judgment,
            DirectiveKind::ProposeRebalance => DirectiveTier::Judgment,
        }
    }

    /// The verb's argument keys in the order in which lines show them.
    pub open spec fn arg_keys(self) -> Seq<Seq<char>> {
        match self {
            DirectiveKind::SetParallelism => seq!["target"@],
            DirectiveKind::SleepAgent => seq!["agent"@],
            DirectiveKind::WakeAgent => seq!["agent"@],
            DirectiveKind::ProposeRespecialize => seq!["agent"@, "specialty"@],
            DirectiveKind::ProposeReallocate => seq!["task"@, "reason"@],
            DirectiveKind::ProposeRebalance => seq!["team"@, "members"@],
        }
    }

    /// The verb's name.
    pub fn as_str(&self) -> (s: &'static str)
        ensures
            s@ == self.name(),
    {
        match self {
            DirectiveKind::SetParallelism => "set_parallelism",
            DirectiveKind::SleepAgent => "sleep_agent",
            DirectiveKind::WakeAgent => "wake_agent",
            DirectiveKind::ProposeRespecialize => "propose_respecialize",
            DirectiveKind::ProposeReallocate => "propose_reallocate",
            DirectiveKind::ProposeRebalance => "propose_rebalance",
        }
    }

    /// The verb's tier.
    pub fn tier(&self) -> (t: DirectiveTier)
        ensures
            t == self.spec_tier(),
    {
        match self {
            DirectiveKind::SetParallelism => DirectiveTier::Mechanical,
            DirectiveKind::SleepAgent => DirectiveTier::Mechanical,
            DirectiveKind::WakeAgent => DirectiveTier::Mechanical,
            DirectiveKind::ProposeRespecialize => DirectiveTier::Judgment,
            DirectiveKind::ProposeReallocate => DirectiveTier::Judgment,
            DirectiveKind::ProposeRebalance => DirectiveTier::Judgment,
        }
    }

    /// The verb's argument keys in the order in which lines show them.
    pub fn arg_order(self) -> (r: Vec<String>)
        ensures
            texts(r@) == self.arg_keys(),
    {
        let mut r: Vec<String> = Vec::new();
        match self {
            DirectiveKind::SetParallelism => {
                r.push("target".to_owned());
            },
            DirectiveKind::SleepAgent => {
                r.push("agent".to_owned());
            },
            DirectiveKind::WakeAgent => {
                r.push("agent".to_owned());
            },
            DirectiveKind::ProposeRespecialize => {
                r.push("agent".to_owned());
                r.push("specialty".to_owned());
            },
            DirectiveKind::ProposeReallocate => {
                r.push("task".to_owned());
                r.push("reason".to_owned());
            },
            DirectiveKind::ProposeRebalance => {
                r.push("team".to_owned());
                r.push("members".to_owned());
            },
        }
        assert(texts(r@) =~= self.arg_keys());
        r
    }
}

/// What has become of a directive.
#[derive(PartialEq, Eq, Debug)]
pub enum DirectiveState {
    /// Nothing yet.
    Pending,
    /// Acted on.
    Fulfilled {
        /// By whom.
        by: AgentId,
    },
    /// Turned down.
    Declined {
        /// By whom.
        by: AgentId,
        /// Why.
        reason: String,
    },
}

impl Clone for DirectiveState {
    fn clone(&self) -> (r: DirectiveState)
        ensures
            r == *self,
    {
        match self {
            DirectiveState::Pending => DirectiveState::Pending,
            DirectiveState::Fulfilled { by } => DirectiveState::Fulfilled { by: *by },
            DirectiveState::Declined { by, reason } => DirectiveState::Declined {
                by: *by,
                reason: reason.clone(),
            },
        }
    }
}

/// What has become of a directive, in specifications.
pub enum ResolutionView {
    /// Nothing yet.
    Pending,
    /// Acted on.
    Fulfilled { by: AgentId },
    /// Turned down.
    Declined { by: AgentId, reason: Seq<char> },
}

impl View for DirectiveState {
    type V = ResolutionView;

    open spec fn view(&self) -> ResolutionView {
        match self {
            DirectiveState::Pending => ResolutionView::Pending,
            DirectiveState::Fulfilled { by } => ResolutionView::Fulfilled { by: *by },
            DirectiveState::Declined { by, reason } => ResolutionView::Declined {
                by: *by,
                reason: reason@,
            },
        }
    }
}

impl ResolutionView {
    /// The state in one word.
    pub open spec fn word(self) -> Seq<char> {
        match self {
            ResolutionView::Pending => "pending"@,
            ResolutionView::Fulfilled { .. } => "fulfilled"@,
            ResolutionView::Declined { .. } => "declined"@,
        }
    }

    /// The state with who and why.
    pub open spec fn outcome(self) -> Seq<char> {
        match self {
            ResolutionView::Pending => "pending"@,
            ResolutionView::Fulfilled { by } => "fulfilled by "@ + by.handle(),
            ResolutionView::Declined { by, reason } => "declined by "@ + by.handle() + ": \""@
                + reason + "\""@,
        }
    }
}

impl DirectiveState {
    /// The state in one word.
    fn state_word(&self) -> (s: &'static str)
        ensures
            s@ == self@.word(),
    {
        match self {
            DirectiveState::Pending => "pending",
            DirectiveState::Fulfilled { .. } => "fulfilled",
            DirectiveState::Declined { .. } => "declined",
        }
    }

    /// The state with who and why.
    fn outcome_text(&self) -> (s: String)
        ensures
            s@ == self@.outcome(),
    {
        match self {
            DirectiveState::Pending => "pending".to_owned(),
            DirectiveState::Fulfilled { by } => {
                let mut s = "fulfilled by ".to_owned();
                s.push_str(by.as_str().as_str());
                s
            },
            DirectiveState::Declined { by, reason } => {
                let mut s = "declined by ".to_owned();
                s.push_str(by.as_str().as_str());
                s.push_str(": \"");
                s.push_str(reason.as_str());
                s.push_str("\"");
                s
            },
        }
    }
}

/// A character that a bare word is made of.
pub open spec fn bare_char(c: char) -> bool {
    ||| 'a' <= c && c <= 'z'
    ||| 'A' <= c && c <= 'Z'
    ||| '0' <= c && c <= '9'
    ||| c == '-'
    ||| c == '_'
}

/// A text that shows without quotes: not empty, letters, digits, hyphens and underscores only.
pub open spec fn bare(s: Seq<char>) -> bool {
    s.len() > 0 && forall|i: int| 0 <= i < s.len() ==> bare_char(#[trigger] s[i])
}

/// Whether a text shows without quotes.
pub fn is_bare(s: &str) -> (b: bool)
    ensures
        b == bare(s@),
{
    let v = chars_of(s);
    if v.len() == 0 {
        return false;
    }
    let mut i: usize = 0;
    while i < v.len()
        invariant
            0 <= i <= v.len(),
            v@ == s@,
            forall|k: int| 0 <= k < i ==> bare_char(#[trigger] s@[k]),
        decreases v.len() - i,
    {
        let c: char = v[i];
        if !(('a' <= c && c <= 'z') || ('A' <= c && c <= 'Z') || ('0' <= c && c <= '9') || c == '-'
            || c == '_') {
            assert(!bare_char(s@[i as int]));
            return false;
        }
        i = i + 1;
    }
    true
}

/// A value as lines show it: bare words bare, other strings quoted, lists `[a b]`, objects
/// `{k:v, ..}`, the rest as in JSON.
pub open spec fn value_text(v: JsonView) -> Seq<char>
    decreases v,
{
    match v {
        JsonView::Text(s) => if bare(s) {
            s
        } else {
            "\""@ + s + "\""@
        },
        JsonView::Array(items) => "["@ + joined(value_items(items), " "@) + "]"@,
        JsonView::Object(fields) => "{"@ + joined(value_fields(fields), ", "@) + "}"@,
        other => other.text(),
    }
}

/// The items of a list as lines show them.
pub open spec fn value_items(items: Seq<JsonView>) -> Seq<Seq<char>>
    decreases items,
{
    if items.len() == 0 {
        Seq::empty()
    } else {
        value_items(items.drop_last()).push(value_text(items.last()))
    }
}

/// The fields of an object as lines show them.
pub open spec fn value_fields(fields: Seq<(Seq<char>, JsonView)>) -> Seq<Seq<char>>
    decreases fields,
{
    if fields.len() == 0 {
        Seq::empty()
    } else {
        value_fields(fields.drop_last()).push(
            fields.last().0 + ":"@ + value_text(fields.last().1),
        )
    }
}

/// The `key:value` pairs of those among `keys` that the object has, in the order of `keys`.
pub open spec fn canonical_pairs(
    keys: Seq<Seq<char>>,
    fields: Seq<(Seq<char>, JsonView)>,
) -> Seq<Seq<char>>
    decreases keys.len(),
{
    if keys.len() == 0 {
        Seq::empty()
    } else {
        let before = canonical_pairs(keys.drop_last(), fields);
        match key_at(fields, keys.last(), 0) {
            Some(i) => before.push(keys.last() + ":"@ + value_text(fields[i].1)),
            None => before,
        }
    }
}

/// The `key:value` pairs of the fields whose keys are not among `keys`, in the object's order.
pub open spec fn extra_pairs(
    keys: Seq<Seq<char>>,
    fields: Seq<(Seq<char>, JsonView)>,
) -> Seq<Seq<char>>
    decreases fields.len(),
{
    if fields.len() == 0 {
        Seq::empty()
    } else {
        let before = extra_pairs(keys, fields.drop_last());
        if keys.contains(fields.last().0) {
            before
        } else {
            before.push(fields.last().0 + ":"@ + value_text(fields.last().1))
        }
    }
}

/// A directive's arguments as lines show them: the verb's own keys first, then the others.
pub open spec fn args_text(kind: DirectiveKind, args: JsonView) -> Seq<char> {
    match args {
        JsonView::Object(fields) => joined(
            canonical_pairs(kind.arg_keys(), fields) + extra_pairs(kind.arg_keys(), fields),
            ", "@,
        ),
        other => value_text(other),
    }
}

/// `key:value`, added to a list of pairs.
fn push_text_pair(pairs: &mut Vec<String>, key: &str, value: &Json)
    ensures
        texts(final(pairs)@) == texts(old(pairs)@).push(key@ + ":"@ + value_text(value@)),
{
    let mut pair = key.to_owned();
    pair.push_str(":");
    pair.push_str(render_value(value).as_str());
    let ghost line = pair@;
    pairs.push(pair);
    assert(texts(pairs@) =~= texts(old(pairs)@).push(line));
}

/// Renders a value for a line.
pub fn render_value(value: &Json) -> (s: String)
    ensures
        s@ == value_text(value@),
    decreases value,
{
    match value {
        Json::Text(t) => if is_bare(t.as_str()) {
            t.clone()
        } else {
            let mut s = "\"".to_owned();
            s.push_str(t.as_str());
            s.push_str("\"");
            s
        },
        Json::Array(items) => {
            let mut parts: Vec<String> = Vec::new();
            let mut i: usize = 0;
            assert(items@.take(0) =~= Seq::<Json>::empty());
            assert(texts(parts@) =~= Seq::<Seq<char>>::empty());
            while i < items.len()
                invariant
                    0 <= i <= items.len(),
                    texts(parts@) == value_items(items_view(items@.take(i as int))),
                    decreases_to!(value => items@),
                decreases items.len() - i,
            {
                assert(decreases_to!(items@ => items@[i as int]));
                let ghost before = parts@;
                parts.push(render_value(&items[i]));
                assert(texts(parts@) =~= texts(before).push(value_text(items@[i as int]@)));
                assert(items@.take(i + 1).drop_last() =~= items@.take(i as int));
                assert(items_view(items@.take(i + 1)).drop_last() =~= items_view(
                    items@.take(i as int),
                ));
                i = i + 1;
            }
            assert(items@.take(i as int) =~= items@);
            let mut s = "[".to_owned();
            s.push_str(join(&parts, " ").as_str());
            s.push_str("]");
            s
        },
        Json::Object(fields) => {
            let mut parts: Vec<String> = Vec::new();
            let mut i: usize = 0;
            assert(fields@.take(0) =~= Seq::<(String, Json)>::empty());
            assert(texts(parts@) =~= Seq::<Seq<char>>::empty());
            while i < fields.len()
                invariant
                    0 <= i <= fields.len(),
                    texts(parts@) == value_fields(fields_view(fields@.take(i as int))),
                    decreases_to!(value => fields@),
                decreases fields.len() - i,
            {
                assert(decreases_to!(fields@ => fields@[i as int]));
                assert(decreases_to!(fields@[i as int] => fields@[i as int].1));
                let mut part = fields[i].0.clone();
                part.push_str(":");
                part.push_str(render_value(&fields[i].1).as_str());
                let ghost before = parts@;
                let ghost line = part@;
                parts.push(part);
                assert(texts(parts@) =~= texts(before).push(line));
                assert(fields@.take(i + 1).drop_last() =~= fields@.take(i as int));
                assert(fields_view(fields@.take(i + 1)).drop_last() =~= fields_view(
                    fields@.take(i as int),
                ));
                i = i + 1;
            }
            assert(fields@.take(i as int) =~= fields@);
            let mut s = "{".to_owned();
            s.push_str(join(&parts, ", ").as_str());
            s.push_str("}");
            s
        },
        other => other.render(),
    }
}

/// Whether a key is among the given ones.
fn has_key(keys: &Vec<String>, key: &str) -> (b: bool)
    ensures
        b == texts(keys@).contains(key@),
{
    let mut i: usize = 0;
    while i < keys.len()
        invariant
            0 <= i <= keys.len(),
            forall|k: int| 0 <= k < i ==> keys@[k]@ != key@,
        decreases keys.len() - i,
    {
        if same(keys[i].as_str(), key) {
            assert(texts(keys@)[i as int] == key@);
            return true;
        }
        i = i + 1;
    }
    false
}

/// Renders a directive's arguments.
pub fn render_args(kind: DirectiveKind, args: &Json) -> (s: String)
    ensures
        s@ == args_text(kind, args@),
{
    match args {
        Json::Object(fields) => {
            let keys = kind.arg_order();
            let ghost ks = kind.arg_keys();
            let ghost fs = fields_view(fields@);
            let mut pairs: Vec<String> = Vec::new();
            let mut i: usize = 0;
            assert(ks.take(0) =~= Seq::<Seq<char>>::empty());
            assert(texts(pairs@) =~= Seq::<Seq<char>>::empty());
            proof {
                lemma_fields(fields@);
            }
            while i < keys.len()
                invariant
                    0 <= i <= keys.len(),
                    ks == texts(keys@),
                    fs == fields_view(fields@),
                    fs.len() == fields.len(),
                    forall|k: int|
                        0 <= k < fields.len() ==> #[trigger] fs[k] == (
                            fields@[k].0@,
                            fields@[k].1@,
                        ),
                    texts(pairs@) == canonical_pairs(ks.take(i as int), fs),
                decreases keys.len() - i,
            {
                assert(ks.take(i + 1).drop_last() =~= ks.take(i as int));
                assert(ks.take(i + 1).last() == keys@[i as int]@);
                match find_key(fields, keys[i].as_str()) {
                    Some(k) => {
                        push_text_pair(&mut pairs, keys[i].as_str(), &fields[k].1);
                    },
                    None => {},
                }
                i = i + 1;
            }
            assert(ks.take(i as int) =~= ks);
            let ghost first = texts(pairs@);
            let mut j: usize = 0;
            assert(fs.take(0) =~= Seq::<(Seq<char>, JsonView)>::empty());
            assert(first + extra_pairs(ks, fs.take(0)) =~= first);
            while j < fields.len()
                invariant
                    0 <= j <= fields.len(),
                    ks == texts(keys@),
                    fs.len() == fields.len(),
                    forall|k: int|
                        0 <= k < fields.len() ==> #[trigger] fs[k] == (
                            fields@[k].0@,
                            fields@[k].1@,
                        ),
                    texts(pairs@) == first + extra_pairs(ks, fs.take(j as int)),
                decreases fields.len() - j,
            {
                assert(fs.take(j + 1).drop_last() =~= fs.take(j as int));
                assert(fs.take(j + 1).last() == fs[j as int]);
                if !has_key(&keys, fields[j].0.as_str()) {
                    push_text_pair(&mut pairs, fields[j].0.as_str(), &fields[j].1);
                    assert(texts(pairs@) =~= first + extra_pairs(ks, fs.take(j + 1)));
                }
                j = j + 1;
            }
            assert(fs.take(j as int) =~= fs);
            join(&pairs, ", ")
        },
        _ => render_value(args),
    }
}

/// A directive.
#[derive(Debug)]
pub struct Directive {
    /// Its number.
    pub id: DirectiveId,
    /// Its tier.
    pub tier: DirectiveTier,
    /// Its verb.
    pub kind: DirectiveKind,
    /// The verb's arguments as issued.
    pub args: Json,
    /// The meta-agent that issued it.
    pub from: AgentId,
    /// What has become of it.
    pub state: DirectiveState,
}

/// A directive in specifications.
pub struct DirectiveView {
    /// Its number.
    pub id: DirectiveId,
    /// Its tier.
    pub tier: DirectiveTier,
    /// Its verb.
    pub kind: DirectiveKind,
    /// The verb's arguments as issued.
    pub args: JsonView,
    /// The meta-agent that issued it.
    pub from: AgentId,
    /// What has become of it.
    pub state: ResolutionView,
}

impl View for Directive {
    type V = DirectiveView;

    open spec fn view(&self) -> DirectiveView {
        DirectiveView {
            id: self.id,
            tier: self.tier,
            kind: self.kind,
            args: self.args@,
            from: self.from,
            state: self.state@,
        }
    }
}

impl DirectiveView {
    /// `- directive <id> [<tier>, <state>] <kind>{<args>} from <meta>`
    pub open spec fn line(self) -> Seq<char> {
        "- directive "@ + dec(self.id.0 as nat) + " ["@ + self.tier.name() + ", "@
            + self.state.word() + "] "@ + self.kind.name() + "{"@ + args_text(
            self.kind,
            self.args,
        ) + "} from "@ + self.from.handle()
    }

    /// `- directive <id> [<tier>] <kind>{<args>} — <outcome>`
    pub open spec fn report(self) -> Seq<char> {
        "- directive "@ + dec(self.id.0 as nat) + " ["@ + self.tier.name() + "] "@
            + self.kind.name() + "{"@ + args_text(self.kind, self.args) + "} — "@
            + self.state.outcome()
    }
}

impl Directive {
    /// Whether nothing has become of the directive yet.
    pub fn is_pending(&self) -> (b: bool)
        ensures
            b == (self@.state is Pending),
    {
        matches!(self.state, DirectiveState::Pending)
    }

    /// The line that the orchestrator sees.
    pub fn directives_line(&self) -> (s: String)
        ensures
            s@ == self@.line(),
    {
        let mut s = "- directive ".to_owned();
        s.push_str(dec_text(self.id.0).as_str());
        s.push_str(" [");
        s.push_str(self.tier.as_str());
        s.push_str(", ");
        s.push_str(self.state.state_word());
        s.push_str("] ");
        s.push_str(self.kind.as_str());
        s.push_str("{");
        s.push_str(render_args(self.kind, &self.args).as_str());
        s.push_str("} from ");
        s.push_str(self.from.as_str().as_str());
        s
    }

    /// The line that the issuing meta-agent sees.
    pub fn outcomes_line(&self) -> (s: String)
        ensures
            s@ == self@.report(),
    {
        let mut s = "- directive ".to_owned();
        s.push_str(dec_text(self.id.0).as_str());
        s.push_str(" [");
        s.push_str(self.tier.as_str());
        s.push_str("] ");
        s.push_str(self.kind.as_str());
        s.push_str("{");
        s.push_str(render_args(self.kind, &self.args).as_str());
        s.push_str("} — ");
        s.push_str(self.state.outcome_text().as_str());
        s
    }
}

} // verus!
