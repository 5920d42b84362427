//! A whole request read back: sections, the turn under way, and the tools on offer.
use crate::json::{find_key, key_at, lemma_fields, lemma_items, parsed_json, Json, JsonView};
use crate::mock::parse::{
    agent_views, board_of, claimed_of, directive_views, directives_of, fresh_of, fresh_views,
    opt_text, outcomes_of, parse_board, parse_claimed, parse_directives, parse_fresh,
    parse_outcomes, parse_recent, parse_utilization, recent_of, utilization_of, BoardDigest,
    ClaimedTask, DirectiveLine, DirectiveOutcomes, FreshMessage, RecentActivity, ShownAgent,
    ShownBoard, ShownClaim, ShownDirective, ShownMessage, UtilizationLine,
};
use crate::text::{
    after_prefix, chars_of, lines, no_lines, push_line, same, split_lines, strip_prefix, text_of,
    texts, trim, trim_end, trimmed, trimmed_end,
};
use crate::tools::{tool_views, ToolDef};
use crate::wire::{call_views, conversation, ChatMessage, ChatRequest, ToolCall, ToolChoice};
use vstd::prelude::*;

verus! {

// ---------------------------------------------------------------------------
// The turn under way.
// ---------------------------------------------------------------------------

/// What came of a call.
#[derive(Clone, Copy, PartialEq, Eq, Structural, Debug)]
pub enum ToolStatus {
    /// It was accepted.
    Accepted,
    /// It was rejected.
    Rejected,
    /// It was malformed.
    Invalid,
    /// Its outcome does not read.
    Unknown,
}

/// What the turn under way has done.
#[derive(PartialEq, Eq, Debug)]
pub struct TurnLocal {
    /// The verbs called.
    pub called_verbs: Vec<String>,
    /// What came of the calls.
    pub statuses: Vec<ToolStatus>,
    /// How many outcomes there are.
    pub tool_messages: usize,
}

/// What the turn under way has done, in specifications.
#[verifier::ext_equal]
pub struct ShownTurn {
    /// The verbs called.
    pub called: Seq<Seq<char>>,
    /// What came of the calls.
    pub statuses: Seq<ToolStatus>,
    /// How many outcomes there are.
    pub outcomes: nat,
}

impl View for TurnLocal {
    type V = ShownTurn;

    open spec fn view(&self) -> ShownTurn {
        ShownTurn {
            called: texts(self.called_verbs@),
            statuses: self.statuses@,
            outcomes: self.tool_messages as nat,
        }
    }
}

impl Default for TurnLocal {
    /// A turn that has done nothing.
    fn default() -> (t: TurnLocal)
        ensures
            t@ == (ShownTurn { called: Seq::empty(), statuses: Seq::empty(), outcomes: 0 }),
    {
        let t = TurnLocal { called_verbs: Vec::new(), statuses: Vec::new(), tool_messages: 0 };
        assert(t@ =~= (ShownTurn { called: Seq::empty(), statuses: Seq::empty(), outcomes: 0 }));
        t
    }
}

impl TurnLocal {
    /// Whether the turn has acted: a call has come back.
    pub fn acted(&self) -> (b: bool)
        ensures
            b == (self@.outcomes > 0),
    {
        self.tool_messages > 0
    }
}

/// The names of calls.
pub open spec fn call_names(calls: Seq<ToolCall>) -> Seq<Seq<char>> {
    Seq::new(calls.len(), |i: int| calls[i].name@)
}

/// The status that an outcome carries.
pub open spec fn status_text(content: Seq<char>) -> Option<Seq<char>> {
    match parsed_json(content) {
        Some(v) => match v.get("status"@) {
            Some(s) => s.string(),
            None => None,
        },
        None => None,
    }
}

/// What an outcome says.
pub open spec fn status_of(status: Option<Seq<char>>) -> ToolStatus {
    match status {
        Some(s) => if s == "ok"@ {
            ToolStatus::Accepted
        } else if s == "rejected"@ {
            ToolStatus::Rejected
        } else if s == "invalid"@ {
            ToolStatus::Invalid
        } else {
            ToolStatus::Unknown
        },
        None => ToolStatus::Unknown,
    }
}

/// Reads what an outcome says from the status it carries.
pub fn read_status(status: Option<&str>) -> (r: ToolStatus)
    ensures
        r == status_of(
            match status {
                Some(s) => Some(s@),
                None => None,
            },
        ),
{
    match status {
        Some(s) => if same(s, "ok") {
            ToolStatus::Accepted
        } else if same(s, "rejected") {
            ToolStatus::Rejected
        } else if same(s, "invalid") {
            ToolStatus::Invalid
        } else {
            ToolStatus::Unknown
        },
        None => ToolStatus::Unknown,
    }
}

fn outcome_status(content: &str) -> (r: ToolStatus)
    ensures
        r == status_of(status_text(content@)),
{
    match Json::parse(content) {
        Some(v) => match v.get("status") {
            Some(s) => read_status(s.as_str()),
            None => ToolStatus::Unknown,
        },
        None => ToolStatus::Unknown,
    }
}

/// What messages show of a turn.
pub open spec fn turn_of(messages: Seq<ChatMessage>) -> ShownTurn
    decreases messages.len(),
{
    if messages.len() == 0 {
        ShownTurn { called: Seq::empty(), statuses: Seq::empty(), outcomes: 0 }
    } else {
        let t = turn_of(messages.drop_last());
        match messages.last() {
            ChatMessage::Assistant { tool_calls: Some(calls), .. } => ShownTurn {
                called: t.called + call_names(calls@),
                ..t
            },
            ChatMessage::Tool { content, .. } => ShownTurn {
                statuses: t.statuses.push(status_of(status_text(content@))),
                outcomes: t.outcomes + 1,
                ..t
            },
            _ => t,
        }
    }
}

fn push_names(verbs: &mut Vec<String>, calls: &Vec<ToolCall>)
    ensures
        texts(final(verbs)@) == texts(old(verbs)@) + call_names(calls@),
{
    let ghost before = texts(verbs@);
    let mut i: usize = 0;
    assert(before + call_names(calls@).take(0) =~= before);
    while i < calls.len()
        invariant
            0 <= i <= calls.len(),
            texts(verbs@) == before + call_names(calls@).take(i as int),
        decreases calls.len() - i,
    {
        push_line(verbs, calls[i].name.clone());
        assert(texts(verbs@) =~= before + call_names(calls@).take(i + 1));
        i = i + 1;
    }
    assert(call_names(calls@).take(i as int) =~= call_names(calls@));
}

fn parse_turn_local(messages: &Vec<ChatMessage>, from: usize) -> (t: TurnLocal)
    requires
        from <= messages.len(),
    ensures
        t@ == turn_of(messages@.skip(from as int)),
{
    let mut called_verbs = no_lines();
    let mut statuses: Vec<ToolStatus> = Vec::new();
    let mut tool_messages: usize = 0;
    let ghost all = messages@.skip(from as int);
    let mut i: usize = from;
    assert(all.take(0) =~= Seq::<ChatMessage>::empty());
    while i < messages.len()
        invariant
            from <= i <= messages.len(),
            all == messages@.skip(from as int),
            tool_messages <= i - from,
            turn_of(all.take(i - from)) == (ShownTurn {
                called: texts(called_verbs@),
                statuses: statuses@,
                outcomes: tool_messages as nat,
            }),
        decreases messages.len() - i,
    {
        assert(all.take(i + 1 - from).drop_last() =~= all.take(i - from));
        assert(all.take(i + 1 - from).last() == messages@[i as int]);
        match &messages[i] {
            ChatMessage::Assistant { tool_calls, .. } => {
                if let Some(calls) = tool_calls {
                    push_names(&mut called_verbs, calls);
                }
            },
            ChatMessage::Tool { content, .. } => {
                tool_messages = tool_messages + 1;
                statuses.push(outcome_status(content.as_str()));
            },
            _ => {},
        }
        i = i + 1;
    }
    assert(all.take(i - from) =~= all);
    TurnLocal { called_verbs, statuses, tool_messages }
}

// ---------------------------------------------------------------------------
// Tools.
// ---------------------------------------------------------------------------

/// The tools that a request offers. Of tools with one name the last counts.
#[derive(Debug)]
pub struct ToolIndex {
    entries: Vec<(String, Option<Json>)>,
    calls_suppressed: bool,
}

/// The tools on offer, in specifications.
pub struct ShownTools {
    /// Schemas by name.
    pub schemas: Map<Seq<char>, Option<JsonView>>,
    /// Nothing may be called.
    pub suppressed: bool,
}

/// An optional schema.
pub open spec fn opt_json(o: Option<Json>) -> Option<JsonView> {
    match o {
        Some(j) => Some(j@),
        None => None,
    }
}

/// Schemas by name, later ones in place of earlier ones.
pub open spec fn schema_map(entries: Seq<(String, Option<Json>)>) -> Map<
    Seq<char>,
    Option<JsonView>,
>
    decreases entries.len(),
{
    if entries.len() == 0 {
        Map::empty()
    } else {
        schema_map(entries.drop_last()).insert(entries.last().0@, opt_json(entries.last().1))
    }
}

/// The schemas of tools by name.
pub open spec fn tool_map(tools: Seq<ToolDef>) -> Map<Seq<char>, Option<JsonView>>
    decreases tools.len(),
{
    if tools.len() == 0 {
        Map::empty()
    } else {
        tool_map(tools.drop_last()).insert(tools.last()@.name, tools.last()@.parameters)
    }
}

impl View for ToolIndex {
    type V = ShownTools;

    closed spec fn view(&self) -> ShownTools {
        ShownTools { schemas: schema_map(self.entries@), suppressed: self.calls_suppressed }
    }
}

impl Default for ToolIndex {
    /// No tools, none forbidden.
    fn default() -> (t: ToolIndex)
        ensures
            t@ == (ShownTools { schemas: Map::empty(), suppressed: false }),
    {
        ToolIndex { entries: Vec::new(), calls_suppressed: false }
    }
}

/// An object has a key.
pub open spec fn has_key(fields: Seq<(Seq<char>, JsonView)>, key: Seq<char>) -> bool {
    key_at(fields, key, 0) is Some
}

/// Every name that a list of required keys holds is a key.
pub open spec fn required_present(
    required: Seq<JsonView>,
    fields: Seq<(Seq<char>, JsonView)>,
) -> bool {
    forall|i: int|
        0 <= i < required.len() && (#[trigger] required[i]).string() is Some ==> has_key(
            fields,
            required[i].string()->0,
        )
}

/// Every key is a property.
pub open spec fn keys_known(
    fields: Seq<(Seq<char>, JsonView)>,
    properties: Seq<(Seq<char>, JsonView)>,
) -> bool {
    forall|i: int| 0 <= i < fields.len() ==> has_key(properties, (#[trigger] fields[i]).0)
}

/// Fields suit a schema, as far as keys go.
pub open spec fn suits(fields: Seq<(Seq<char>, JsonView)>, schema: JsonView) -> bool {
    &&& match schema.get("required"@) {
        Some(JsonView::Array(required)) => required_present(required, fields),
        _ => true,
    }
    &&& match schema.get("properties"@) {
        Some(JsonView::Object(properties)) => keys_known(fields, properties),
        _ => true,
    }
}

impl ShownTools {
    /// A tool may be called.
    pub open spec fn offers(self, name: Seq<char>) -> bool {
        !self.suppressed && self.schemas.dom().contains(name)
    }

    /// A tool may be called with the given arguments: they are an object that has the required keys
    /// and no others than the properties; a tool without a schema takes none.
    pub open spec fn fit(self, name: Seq<char>, args: JsonView) -> bool {
        self.offers(name) && match args {
            JsonView::Object(fields) => match self.schemas[name] {
                Some(schema) => suits(fields, schema),
                None => fields.len() == 0,
            },
            _ => false,
        }
    }
}

proof fn lemma_schema_at(entries: Seq<(String, Option<Json>)>, name: Seq<char>, k: int)
    requires
        0 <= k <= entries.len(),
        forall|j: int| k <= j < entries.len() ==> (#[trigger] entries[j]).0@ != name,
    ensures
        schema_map(entries).dom().contains(name) == schema_map(entries.take(k)).dom().contains(
            name,
        ),
        schema_map(entries).dom().contains(name) ==> schema_map(entries)[name] == schema_map(
            entries.take(k),
        )[name],
    decreases entries.len(),
{
    if k == entries.len() {
        assert(entries.take(k) =~= entries);
    } else {
        lemma_schema_at(entries.drop_last(), name, k);
        assert(entries.drop_last().take(k) =~= entries.take(k));
    }
}

impl ToolIndex {
    /// The entry that counts for a name.
    fn position(&self, name: &str) -> (r: Option<usize>)
        ensures
            match r {
                Some(i) => i < self.entries@.len() && self@.schemas.dom().contains(name@)
                    && self@.schemas[name@] == opt_json(self.entries@[i as int].1),
                None => !self@.schemas.dom().contains(name@),
            },
    {
        let mut i: usize = self.entries.len();
        while i > 0
            invariant
                0 <= i <= self.entries.len(),
                forall|j: int|
                    i <= j < self.entries.len() ==> (#[trigger] self.entries@[j]).0@ != name@,
            decreases i,
        {
            i = i - 1;
            if same(self.entries[i].0.as_str(), name) {
                proof {
                    lemma_schema_at(self.entries@, name@, i + 1);
                    assert(self.entries@.take(i + 1).last() == self.entries@[i as int]);
                }
                return Some(i);
            }
        }
        proof {
            lemma_schema_at(self.entries@, name@, 0);
            assert(self.entries@.take(0).len() == 0);
        }
        None
    }

    /// Whether a tool may be called.
    pub fn available(&self, name: &str) -> (b: bool)
        ensures
            b == self@.offers(name@),
    {
        !self.calls_suppressed && self.position(name).is_some()
    }

    /// The schema of a tool.
    pub fn schema(&self, name: &str) -> (r: Option<&Json>)
        ensures
            match r {
                Some(j) => self@.schemas.dom().contains(name@) && self@.schemas[name@] == Some(j@),
                None => self@.schemas.dom().contains(name@) ==> self@.schemas[name@] is None,
            },
    {
        match self.position(name) {
            Some(i) => match &self.entries[i].1 {
                Some(j) => Some(j),
                None => None,
            },
            None => None,
        }
    }

    /// Whether a tool may be called with the given arguments.
    pub fn args_fit(&self, name: &str, args: &Json) -> (b: bool)
        ensures
            b == self@.fit(name@, args@),
    {
        if !self.available(name) {
            return false;
        }
        match args {
            Json::Object(fields) => match self.schema(name) {
                Some(schema) => suit(fields, schema),
                None => {
                    proof {
                        lemma_fields(fields@);
                    }
                    fields.len() == 0
                },
            },
            _ => false,
        }
    }
}

fn key_in(fields: &Vec<(String, Json)>, key: &str) -> (b: bool)
    ensures
        b == has_key(crate::json::fields_view(fields@), key@),
{
    find_key(fields, key).is_some()
}

fn suit(fields: &Vec<(String, Json)>, schema: &Json) -> (b: bool)
    ensures
        b == suits(crate::json::fields_view(fields@), schema@),
{
    if let Some(Json::Array(required)) = schema.get("required") {
        proof {
            lemma_items(required@);
        }
        let mut i: usize = 0;
        while i < required.len()
            invariant
                0 <= i <= required.len(),
                crate::json::items_view(required@).len() == required.len(),
                forall|k: int|
                    0 <= k < required.len() ==> #[trigger] crate::json::items_view(required@)[k]
                        == required@[k]@,
                schema@.get("required"@) == Some(
                    JsonView::Array(crate::json::items_view(required@)),
                ),
                forall|k: int|
                    0 <= k < i && (#[trigger] crate::json::items_view(required@)[k]).string()
                        is Some ==> has_key(
                        crate::json::fields_view(fields@),
                        crate::json::items_view(required@)[k].string()->0,
                    ),
            decreases required.len() - i,
        {
            assert(crate::json::items_view(required@)[i as int] == required@[i as int]@);
            if let Some(key) = required[i].as_str() {
                if !key_in(fields, key) {
                    return false;
                }
            }
            i = i + 1;
        }
    }
    if let Some(Json::Object(properties)) = schema.get("properties") {
        proof {
            lemma_fields(fields@);
        }
        let mut i: usize = 0;
        while i < fields.len()
            invariant
                0 <= i <= fields.len(),
                crate::json::fields_view(fields@).len() == fields.len(),
                forall|k: int|
                    0 <= k < fields.len() ==> #[trigger] crate::json::fields_view(fields@)[k] == (
                    fields@[k].0@, fields@[k].1@),
                schema@.get("properties"@) == Some(
                    JsonView::Object(crate::json::fields_view(properties@)),
                ),
                forall|k: int|
                    0 <= k < i ==> has_key(
                        crate::json::fields_view(properties@),
                        (#[trigger] crate::json::fields_view(fields@)[k]).0,
                    ),
            decreases fields.len() - i,
        {
            assert(crate::json::fields_view(fields@)[i as int].0 == fields@[i as int].0@);
            if !key_in(properties, fields[i].0.as_str()) {
                return false;
            }
            i = i + 1;
        }
    }
    true
}

/// The tools that a request offers.
pub open spec fn tools_of(req: ChatRequest) -> ShownTools {
    ShownTools {
        schemas: tool_map(req.tools@),
        suppressed: req.tool_choice == Some(ToolChoice::Never),
    }
}

fn parse_tools(req: &ChatRequest) -> (t: ToolIndex)
    ensures
        t@ == tools_of(*req),
{
    let mut entries: Vec<(String, Option<Json>)> = Vec::new();
    let mut i: usize = 0;
    assert(req.tools@.take(0) =~= Seq::<ToolDef>::empty());
    while i < req.tools.len()
        invariant
            0 <= i <= req.tools.len(),
            schema_map(entries@) == tool_map(req.tools@.take(i as int)),
        decreases req.tools.len() - i,
    {
        let ghost before = entries@;
        let parameters = match &req.tools[i].parameters {
            Some(j) => Some(j.clone()),
            None => None,
        };
        entries.push((req.tools[i].name.clone(), parameters));
        assert(entries@.drop_last() =~= before);
        assert(req.tools@.take(i + 1).drop_last() =~= req.tools@.take(i as int));
        i = i + 1;
    }
    assert(req.tools@.take(i as int) =~= req.tools@);
    let calls_suppressed = match &req.tool_choice {
        Some(ToolChoice::Never) => true,
        _ => false,
    };
    ToolIndex { entries, calls_suppressed }
}

// ---------------------------------------------------------------------------
// Sections.
// ---------------------------------------------------------------------------

/// A section: its header and its lines.
pub type Section = (Seq<char>, Seq<Seq<char>>);

/// The sections of a text: a line that starts with `## ` opens one; lines before the first belong to
/// none.
pub open spec fn sections_of(ls: Seq<Seq<char>>) -> Seq<Section>
    decreases ls.len(),
{
    if ls.len() == 0 {
        Seq::empty()
    } else {
        let s = sections_of(ls.drop_last());
        match after_prefix(ls.last(), "## "@) {
            Some(header) => s.push((trim(header), Seq::empty())),
            None => if s.len() == 0 {
                s
            } else {
                s.drop_last().push((s.last().0, s.last().1.push(trim_end(ls.last()))))
            },
        }
    }
}

/// What a list of sections holds.
pub open spec fn section_views(v: Seq<(String, Vec<String>)>) -> Seq<Section> {
    Seq::new(v.len(), |i: int| (v[i].0@, texts(v[i].1@)))
}

fn split_sections(text: &str) -> (r: Vec<(String, Vec<String>)>)
    ensures
        section_views(r@) == sections_of(lines(text@)),
{
    let ls = split_lines(text);
    let ghost all = texts(ls@);
    let mut done: Vec<(String, Vec<String>)> = Vec::new();
    let mut header: Option<String> = None;
    let mut body = no_lines();
    let mut i: usize = 0;
    assert(all.take(0) =~= Seq::<Seq<char>>::empty());
    assert(section_views(done@) =~= Seq::<Section>::empty());
    while i < ls.len()
        invariant
            0 <= i <= ls.len(),
            all == texts(ls@),
            match header {
                Some(h) => sections_of(all.take(i as int)) == section_views(done@).push(
                    (h@, texts(body@)),
                ),
                None => sections_of(all.take(i as int)).len() == 0 && done@.len() == 0,
            },
        decreases ls.len() - i,
    {
        assert(all.take(i + 1).drop_last() =~= all.take(i as int));
        assert(all.take(i + 1).last() == ls@[i as int]@);
        let ghost before = sections_of(all.take(i as int));
        let v = chars_of(ls[i].as_str());
        match strip_prefix(v.as_slice(), "## ") {
            Some(h) => {
                if let Some(open) = header {
                    let ghost closed = section_views(done@);
                    let ghost last = (open@, texts(body@));
                    done.push((open, body));
                    assert(section_views(done@) =~= closed.push(last));
                }
                assert(section_views(done@) =~= before);
                header = Some(text_of(trimmed(h)));
                body = no_lines();
            },
            None => {
                if header.is_some() {
                    push_line(&mut body, text_of(trimmed_end(v.as_slice())));
                    assert(before.drop_last() =~= section_views(done@));
                }
            },
        }
        i = i + 1;
    }
    assert(all.take(i as int) =~= all);
    if let Some(open) = header {
        let ghost closed = section_views(done@);
        let ghost last = (open@, texts(body@));
        done.push((open, body));
        assert(section_views(done@) =~= closed.push(last));
    }
    assert(section_views(done@) =~= sections_of(all));
    done
}

/// The first line that is not blank.
pub open spec fn first_line(ls: Seq<Seq<char>>, i: int) -> Option<Seq<char>>
    decreases ls.len() - i,
{
    if i < 0 || i >= ls.len() {
        None
    } else if ls[i].len() > 0 {
        Some(ls[i])
    } else {
        first_line(ls, i + 1)
    }
}

fn find_line(ls: &Vec<String>) -> (r: Option<String>)
    ensures
        opt_text(r) == first_line(texts(ls@), 0),
{
    let mut i: usize = 0;
    let ghost all = texts(ls@);
    while i < ls.len()
        invariant
            0 <= i <= ls.len(),
            all == texts(ls@),
            first_line(all, 0) == first_line(all, i as int),
        decreases ls.len() - i,
    {
        assert(all[i as int] == ls@[i as int]@);
        if chars_of(ls[i].as_str()).len() > 0 {
            return Some(ls[i].clone());
        }
        i = i + 1;
    }
    None
}

// ---------------------------------------------------------------------------
// The request.
// ---------------------------------------------------------------------------

/// Everything that a reply may depend on besides who asks.
#[derive(Debug)]
pub struct RenderedWorld {
    /// The goal.
    pub goal: Option<String>,
    /// The board.
    pub board: Option<BoardDigest>,
    /// The task that the agent has claimed.
    pub claimed: Option<ClaimedTask>,
    /// What the agent did lately.
    pub recent_activity: Option<RecentActivity>,
    /// Messages, oldest first.
    pub fresh_messages: Vec<FreshMessage>,
    /// Directives.
    pub directives: Vec<DirectiveLine>,
    /// Which tiers the meta-agent has used.
    pub directive_outcomes: Option<DirectiveOutcomes>,
    /// What the agents do.
    pub utilization: Vec<UtilizationLine>,
    /// What the turn under way has done.
    pub turn_local: TurnLocal,
    /// The tools on offer.
    pub tools: ToolIndex,
}

/// Everything that a reply may depend on besides who asks, in specifications.
#[verifier::ext_equal]
pub struct Shown {
    /// The goal.
    pub goal: Option<Seq<char>>,
    /// The board.
    pub board: Option<ShownBoard>,
    /// The task that the agent has claimed.
    pub claimed: Option<ShownClaim>,
    /// What the agent did lately.
    pub recent: Option<RecentActivity>,
    /// Messages, oldest first.
    pub fresh: Seq<ShownMessage>,
    /// Directives.
    pub directives: Seq<ShownDirective>,
    /// Which tiers the meta-agent has used.
    pub outcomes: Option<DirectiveOutcomes>,
    /// What the agents do.
    pub utilization: Seq<ShownAgent>,
    /// What the turn under way has done.
    pub turn: ShownTurn,
    /// The tools on offer.
    pub tools: ShownTools,
}

impl View for RenderedWorld {
    type V = Shown;

    open spec fn view(&self) -> Shown {
        Shown {
            goal: opt_text(self.goal),
            board: match self.board {
                Some(b) => Some(b@),
                None => None,
            },
            claimed: match self.claimed {
                Some(c) => Some(c@),
                None => None,
            },
            recent: self.recent_activity,
            fresh: fresh_views(self.fresh_messages@),
            directives: directive_views(self.directives@),
            outcomes: self.directive_outcomes,
            utilization: agent_views(self.utilization@),
            turn: self.turn_local@,
            tools: self.tools@,
        }
    }
}

/// What is shown after one more section: a known header sets its part anew.
pub open spec fn with_section(w: Shown, section: Section) -> Shown {
    let (header, ls) = section;
    if header == "Goal"@ {
        Shown { goal: first_line(ls, 0), ..w }
    } else if header == "Board digest"@ {
        Shown { board: Some(board_of(ls)), ..w }
    } else if header == "Claimed task"@ {
        Shown { claimed: claimed_of(ls), ..w }
    } else if header == "Recent activity"@ {
        Shown { recent: Some(recent_of(ls)), ..w }
    } else if header == "Fresh messages"@ {
        Shown { fresh: fresh_of(ls), ..w }
    } else if header == "Directives"@ {
        Shown { directives: directives_of(ls), ..w }
    } else if header == "Directive outcomes"@ {
        Shown { outcomes: Some(outcomes_of(ls)), ..w }
    } else if header == "Metrics digest"@ {
        Shown { utilization: utilization_of(ls, 0, false), ..w }
    } else {
        w
    }
}

/// What is shown after all sections.
pub open spec fn with_sections(w: Shown, sections: Seq<Section>) -> Shown
    decreases sections.len(),
{
    if sections.len() == 0 {
        w
    } else {
        with_section(with_sections(w, sections.drop_last()), sections.last())
    }
}

/// What a request without sections and without a turn under way shows.
pub open spec fn blank_shown(tools: ShownTools) -> Shown {
    Shown {
        goal: None,
        board: None,
        claimed: None,
        recent: None,
        fresh: Seq::empty(),
        directives: Seq::empty(),
        outcomes: None,
        utilization: Seq::empty(),
        turn: turn_of(Seq::empty()),
        tools,
    }
}

/// The last user message among the first `n`.
pub open spec fn last_user(messages: Seq<ChatMessage>, n: int) -> Option<int>
    decreases n,
{
    if n <= 0 {
        None
    } else if messages[n - 1] is User {
        Some(n - 1)
    } else {
        last_user(messages, n - 1)
    }
}

/// The text of a user message.
pub open spec fn user_text(m: ChatMessage) -> Seq<char> {
    match m {
        ChatMessage::User { content } => content@,
        _ => Seq::empty(),
    }
}

/// What a request shows: the sections of its last user message, and the turn behind it.
pub open spec fn shown(req: ChatRequest) -> Shown {
    let w = blank_shown(tools_of(req));
    match last_user(req.messages@, req.messages.len() as int) {
        Some(i) => Shown {
            turn: turn_of(req.messages@.skip(i + 1)),
            ..with_sections(w, sections_of(lines(user_text(req.messages@[i]))))
        },
        None => w,
    }
}

/// Two requests hold the same conversation, offer the same tools and allow the same calls.
pub open spec fn same_request(a: ChatRequest, b: ChatRequest) -> bool {
    &&& conversation(a.messages@) == conversation(b.messages@)
    &&& tool_views(a.tools@) == tool_views(b.tools@)
    &&& (a.tool_choice == Some(ToolChoice::Never)) == (b.tool_choice == Some(ToolChoice::Never))
    &&& a.parallel_tool_calls == b.parallel_tool_calls
}

proof fn lemma_same_turn(a: Seq<ChatMessage>, b: Seq<ChatMessage>)
    requires
        conversation(a) == conversation(b),
    ensures
        turn_of(a) == turn_of(b),
    decreases a.len(),
{
    assert(conversation(a).len() == a.len() && conversation(b).len() == b.len());
    if a.len() > 0 {
        let n = a.len() - 1;
        assert(conversation(a.drop_last()) =~= conversation(a).drop_last());
        assert(conversation(b.drop_last()) =~= conversation(b).drop_last());
        lemma_same_turn(a.drop_last(), b.drop_last());
        assert(a[n]@ == conversation(a)[n] && b[n]@ == conversation(b)[n]);
        match (a[n], b[n]) {
            (
                ChatMessage::Assistant { tool_calls: Some(x), .. },
                ChatMessage::Assistant { tool_calls: Some(y), .. },
            ) => {
                assert(call_views(x@).len() == x@.len() && call_views(y@).len() == y@.len());
                assert forall|i: int| 0 <= i < x@.len() implies call_names(x@)[i] == call_names(
                    y@,
                )[i] by {
                    assert(call_views(x@)[i] == call_views(y@)[i]);
                }
                assert(call_names(x@) =~= call_names(y@));
            },
            _ => {},
        }
    }
}

proof fn lemma_same_tools(a: Seq<ToolDef>, b: Seq<ToolDef>)
    requires
        tool_views(a) == tool_views(b),
    ensures
        tool_map(a) == tool_map(b),
    decreases a.len(),
{
    assert(tool_views(a).len() == a.len() && tool_views(b).len() == b.len());
    if a.len() > 0 {
        assert(tool_views(a.drop_last()) =~= tool_views(a).drop_last());
        assert(tool_views(b.drop_last()) =~= tool_views(b).drop_last());
        lemma_same_tools(a.drop_last(), b.drop_last());
        let n = a.len() - 1;
        assert(a[n]@ == tool_views(a)[n] && b[n]@ == tool_views(b)[n]);
    }
}

proof fn lemma_same_user(a: Seq<ChatMessage>, b: Seq<ChatMessage>, n: int)
    requires
        conversation(a) == conversation(b),
        n <= a.len(),
    ensures
        last_user(a, n) == last_user(b, n),
        match last_user(a, n) {
            Some(i) => 0 <= i < n && user_text(a[i]) == user_text(b[i]),
            None => true,
        },
    decreases n,
{
    assert(conversation(a).len() == a.len() && conversation(b).len() == b.len());
    if n > 0 {
        let (x, y) = (a[n - 1]@, b[n - 1]@);
        assert(x == conversation(a)[n - 1] && y == conversation(b)[n - 1]);
        lemma_same_user(a, b, n - 1);
    }
}

/// Requests that hold the same show the same.
pub proof fn same_requests_show_the_same(a: ChatRequest, b: ChatRequest)
    requires
        same_request(a, b),
    ensures
        shown(a) == shown(b),
{
    assert(conversation(a.messages@).len() == a.messages.len());
    assert(conversation(b.messages@).len() == b.messages.len());
    lemma_same_tools(a.tools@, b.tools@);
    lemma_same_user(a.messages@, b.messages@, a.messages.len() as int);
    if let Some(i) = last_user(a.messages@, a.messages.len() as int) {
        let (x, y) = (a.messages@.skip(i + 1), b.messages@.skip(i + 1));
        assert(conversation(x) =~= conversation(a.messages@).skip(i + 1));
        assert(conversation(y) =~= conversation(b.messages@).skip(i + 1));
        lemma_same_turn(x, y);
    }
}

fn find_user(messages: &Vec<ChatMessage>) -> (r: Option<usize>)
    ensures
        match r {
            Some(i) => last_user(messages@, messages.len() as int) == Some(i as int) && i
                < messages.len() && messages@[i as int] is User,
            None => last_user(messages@, messages.len() as int) is None,
        },
{
    let mut i: usize = messages.len();
    while i > 0
        invariant
            0 <= i <= messages.len(),
            last_user(messages@, messages.len() as int) == last_user(messages@, i as int),
        decreases i,
    {
        i = i - 1;
        if let ChatMessage::User { .. } = &messages[i] {
            return Some(i);
        }
    }
    None
}

impl Default for RenderedWorld {
    /// Nothing shown.
    fn default() -> (w: RenderedWorld)
        ensures
            w@ == blank_shown(ShownTools { schemas: Map::empty(), suppressed: false }),
    {
        let w = RenderedWorld {
            goal: None,
            board: None,
            claimed: None,
            recent_activity: None,
            fresh_messages: Vec::new(),
            directives: Vec::new(),
            directive_outcomes: None,
            utilization: Vec::new(),
            turn_local: TurnLocal::default(),
            tools: ToolIndex::default(),
        };
        assert(w@ =~= blank_shown(ShownTools { schemas: Map::empty(), suppressed: false }));
        w
    }
}

impl RenderedWorld {
    /// Reads a request.
    pub fn parse(req: &ChatRequest) -> (w: RenderedWorld)
        ensures
            w@ == shown(*req),
    {
        let mut world = RenderedWorld::default();
        world.tools = parse_tools(req);
        assert(world@ =~= blank_shown(tools_of(*req)));
        if let Some(i) = find_user(&req.messages) {
            if let ChatMessage::User { content } = &req.messages[i] {
                world.parse_sections(content.as_str());
            }
            let ghost read = world@;
            world.turn_local = parse_turn_local(&req.messages, i + 1);
            assert(world@ =~= (Shown { turn: turn_of(req.messages@.skip(i + 1)), ..read }));
        }
        world
    }

    fn parse_section(&mut self, header: &str, ls: &Vec<String>)
        ensures
            final(self)@ == with_section(old(self)@, (header@, texts(ls@))),
    {
        if same(header, "Goal") {
            self.goal = find_line(ls);
        } else if same(header, "Board digest") {
            self.board = Some(parse_board(ls));
        } else if same(header, "Claimed task") {
            self.claimed = parse_claimed(ls);
        } else if same(header, "Recent activity") {
            self.recent_activity = Some(parse_recent(ls));
        } else if same(header, "Fresh messages") {
            self.fresh_messages = parse_fresh(ls);
        } else if same(header, "Directives") {
            self.directives = parse_directives(ls);
        } else if same(header, "Directive outcomes") {
            self.directive_outcomes = Some(parse_outcomes(ls));
        } else if same(header, "Metrics digest") {
            self.utilization = parse_utilization(ls);
        }
        assert(self@ =~= with_section(old(self)@, (header@, texts(ls@))));
    }

    fn parse_sections(&mut self, text: &str)
        ensures
            final(self)@ == with_sections(old(self)@, sections_of(lines(text@))),
    {
        let sections = split_sections(text);
        let ghost all = section_views(sections@);
        let mut i: usize = 0;
        assert(all.take(0) =~= Seq::<Section>::empty());
        while i < sections.len()
            invariant
                0 <= i <= sections.len(),
                all == section_views(sections@),
                self@ == with_sections(old(self)@, all.take(i as int)),
            decreases sections.len() - i,
        {
            assert(all.take(i + 1).drop_last() =~= all.take(i as int));
            assert(all.take(i + 1).last() == (sections@[i as int].0@, texts(
                sections@[i as int].1@,
            )));
            self.parse_section(sections[i].0.as_str(), &sections[i].1);
            i = i + 1;
        }
        assert(all.take(i as int) =~= all);
    }
}

} // verus!
