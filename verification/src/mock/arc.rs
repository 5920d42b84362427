//! The built-in behaviour: what each role does next is read off the prompt, and the seed decides
//! only between things that fit.
use crate::agent::{user_of, ParsedUser, UserView};
use crate::json::{items_view, lemma_items, object1, object2, object3, Json, JsonView};
use crate::llm::WireIdentity;
use crate::mock::parse::{
    agent_views, claimed_by, directive_views, list_words, titles_done, value_of, whole,
    AgentStateLine, ClaimedTask, DirectiveLine, DirectiveOutcomes, RecentActivity, ShownAgent,
    ShownClaim, ShownDirective, UtilizationLine,
};
use crate::mock::phrase::{lemma_options, pick, picked, Phrase};
use crate::mock::rendered::{
    same_request, same_requests_show_the_same, shown, RenderedWorld, Shown, ShownTools, ToolIndex,
};
use crate::mock::seed::{derive_rng, stream, Draws};
use crate::text::{
    after_prefix, chars_of, dec, dec_text, lowercase, no_lines, parse_number, push_line, same, split_words, texts,
    words, Separator,
};
use crate::wire::{
    call_views, said, say, CallView, ChatDecision, ChatRequest, DecisionView, FinishReason,
    ResponseMessage, ToolCall,
};
use vstd::prelude::*;

verus! {

/// The most tasks that a run is decomposed into.
pub const MAX_TASKS: u64 = 8;

/// The most work actions that a task takes.
pub const MAX_WORK: u64 = 3;

// ---------------------------------------------------------------------------
// Plans.
// ---------------------------------------------------------------------------

/// A call that is planned: a verb and its arguments.
pub type PlannedCall = (Seq<char>, JsonView);

/// What a reply is to do, in specifications.
pub enum PlanView {
    /// Call.
    Calls(Seq<PlannedCall>),
    /// Say something.
    Yield(Seq<char>),
}

/// What a reply is to do.
#[derive(Debug)]
pub enum Plan {
    /// Call.
    Calls(Vec<(&'static str, Json)>),
    /// Say something.
    Yield(String),
}

/// What a list of planned calls holds.
pub open spec fn planned_views(v: Seq<(&'static str, Json)>) -> Seq<PlannedCall> {
    Seq::new(v.len(), |i: int| (v[i].0@, v[i].1@))
}

impl View for Plan {
    type V = PlanView;

    open spec fn view(&self) -> PlanView {
        match self {
            Plan::Calls(v) => PlanView::Calls(planned_views(v@)),
            Plan::Yield(t) => PlanView::Yield(t@),
        }
    }
}

/// A text that a reply may say: one of the phrases, or what a plain client is told of its goal.
pub open spec fn worded(t: Seq<char>) -> bool {
    (exists|phrase: Phrase| (#[trigger] phrase.options()).contains(t)) || after_prefix(
        t,
        "Proceeding with: "@,
    ) is Some
}

/// A plan to say something says what a reply may say.
pub open spec fn worded_plan(p: PlanView) -> bool {
    p matches PlanView::Yield(t) ==> worded(t)
}

/// A plan of one call.
fn one_call(verb: &'static str, args: Json) -> (p: Plan)
    ensures
        worded_plan(p@),
        p@ == PlanView::Calls(seq![(verb@, args@)]),
{
    let mut calls: Vec<(&'static str, Json)> = Vec::new();
    calls.push((verb, args));
    assert(planned_views(calls@) =~= seq![(verb@, args@)]);
    Plan::Calls(calls)
}

/// A plan to say a phrase that is drawn.
pub open spec fn yield_one_of(d: Draws, phrase: Phrase) -> (PlanView, Draws) {
    (PlanView::Yield(picked(d, phrase).0), picked(d, phrase).1)
}

fn yield_phrase(d: &mut Draws, phrase: Phrase) -> (p: Plan)
    ensures
        worded_plan(p@),
        (p@, *final(d)) == yield_one_of(*old(d), phrase),
{
    let text = pick(d, phrase);
    Plan::Yield(text.to_owned())
}

/// A JSON array of strings.
pub open spec fn text_array(items: Seq<Seq<char>>) -> JsonView {
    JsonView::Array(Seq::new(items.len(), |i: int| JsonView::Text(items[i])))
}

fn json_texts(items: &Vec<String>) -> (j: Json)
    ensures
        j@ == text_array(texts(items@)),
{
    let mut v: Vec<Json> = Vec::new();
    let mut i: usize = 0;
    while i < items.len()
        invariant
            0 <= i <= items.len(),
            v.len() == i,
            forall|k: int| 0 <= k < i ==> (#[trigger] v@[k])@ == JsonView::Text(items@[k]@),
        decreases items.len() - i,
    {
        v.push(Json::string(items[i].as_str()));
        i = i + 1;
    }
    proof {
        lemma_items(v@);
        assert(items_view(v@) =~= Seq::new(
            texts(items@).len(),
            |i: int| JsonView::Text(texts(items@)[i]),
        ));
    }
    Json::array(v)
}

// ---------------------------------------------------------------------------
// Budgets.
// ---------------------------------------------------------------------------

/// How many tasks the run of a seed is decomposed into.
pub open spec fn budget_of(seed: u64) -> u64 {
    stream(seed, "openteam-arc/task-budget"@, 0).range(1, MAX_TASKS).0
}

/// How many work actions an agent takes on a task.
pub open spec fn quota_of(seed: u64, agent: Seq<char>, task: u64) -> u64 {
    stream(seed, "openteam-arc/work-quota/"@ + agent, task).range(1, MAX_WORK).0
}

/// The built-in behaviour.
#[derive(Clone, Copy, PartialEq, Eq, Structural, Debug)]
pub struct BuiltinArc;

impl BuiltinArc {
    /// The built-in behaviour.
    pub fn new() -> (r: BuiltinArc)
        ensures
            r == BuiltinArc,
    {
        BuiltinArc
    }

    /// How many tasks the run of a seed is decomposed into.
    pub fn task_budget(seed: u64) -> (r: u64)
        ensures
            r == budget_of(seed),
            1 <= r <= MAX_TASKS,
    {
        let mut d = derive_rng(seed, "openteam-arc/task-budget", 0);
        d.random_range(1, MAX_TASKS)
    }

    /// How many work actions an agent takes on a task.
    pub fn work_quota(seed: u64, agent: &str, task: u64) -> (r: u64)
        ensures
            r == quota_of(seed, agent@, task),
            1 <= r <= MAX_WORK,
    {
        let mut user = "openteam-arc/work-quota/".to_owned();
        user.push_str(agent);
        let mut d = derive_rng(seed, user.as_str(), task);
        d.random_range(1, MAX_WORK)
    }
}

// ---------------------------------------------------------------------------
// Words.
// ---------------------------------------------------------------------------

/// The words of at least four characters, in lower case.
pub open spec fn long_words(ws: Seq<Seq<char>>) -> Seq<Seq<char>>
    decreases ws.len(),
{
    if ws.len() == 0 {
        Seq::empty()
    } else {
        let rest = long_words(ws.drop_last());
        if ws.last().len() >= 4 {
            rest.push(lowercase(ws.last()))
        } else {
            rest
        }
    }
}

/// The words of a goal that task titles are made of.
pub open spec fn topics(goal: Option<Seq<char>>) -> Seq<Seq<char>> {
    match goal {
        Some(g) => long_words(words(g, Separator::NonAlphanumeric)),
        None => Seq::empty(),
    }
}

fn goal_words(goal: &str) -> (r: Vec<String>)
    ensures
        texts(r@) == topics(Some(goal@)),
{
    let ws = split_words(chars_of(goal).as_slice(), Separator::NonAlphanumeric);
    let ghost all = texts(ws@);
    let mut r = no_lines();
    let mut i: usize = 0;
    assert(all.take(0) =~= Seq::<Seq<char>>::empty());
    while i < ws.len()
        invariant
            0 <= i <= ws.len(),
            all == texts(ws@),
            texts(r@) == long_words(all.take(i as int)),
        decreases ws.len() - i,
    {
        assert(all.take(i + 1).drop_last() =~= all.take(i as int));
        assert(all.take(i + 1).last() == ws@[i as int]@);
        if chars_of(ws[i].as_str()).len() >= 4 {
            push_line(&mut r, ws[i].to_lowercase());
        }
        i = i + 1;
    }
    assert(all.take(i as int) =~= all);
    r
}

/// The title and description of the `index`-th task, and the stream after them.
pub open spec fn task_text_of(d: Draws, topics: Seq<Seq<char>>, index: nat) -> (
    Seq<char>,
    Seq<char>,
    Draws,
) {
    let (verb, d1) = picked(d, Phrase::TaskVerb);
    let (noun, d2) = picked(d1, Phrase::TaskNoun);
    let (topic, d3) = if topics.len() == 0 {
        ("core"@, d2)
    } else {
        let (i, e) = d2.index(topics.len() as usize);
        (topics[(index + i) % (topics.len() as int)], e)
    };
    (
        verb + " the "@ + topic + " "@ + noun,
        verb + " work covering "@ + topic + " toward the goal."@,
        d3,
    )
}

fn task_text(d: &mut Draws, topics: &Vec<String>, index: u64) -> (r: (String, String))
    ensures
        (r.0@, r.1@, *final(d)) == task_text_of(*old(d), texts(topics@), index as nat),
{
    let verb = pick(d, Phrase::TaskVerb);
    let noun = pick(d, Phrase::TaskNoun);
    assert(texts(topics@).len() == topics@.len());
    let topic = if topics.len() == 0 {
        "core".to_owned()
    } else {
        let len: usize = topics.len();
        let drawn: usize = d.random_index(len);
        let at: usize = ((index as u128 + drawn as u128) % (len as u128)) as usize;
        assert(at == (index as nat + drawn) % (texts(topics@).len() as int));
        assert(texts(topics@)[at as int] == topics@[at as int]@);
        topics[at].clone()
    };
    let mut title = verb.to_owned();
    title.push_str(" the ");
    title.push_str(topic.as_str());
    title.push_str(" ");
    title.push_str(noun);
    let mut description = verb.to_owned();
    description.push_str(" work covering ");
    description.push_str(topic.as_str());
    description.push_str(" toward the goal.");
    (title, description)
}

// ---------------------------------------------------------------------------
// The orchestrator.
// ---------------------------------------------------------------------------

/// How many tasks the board shows.
pub open spec fn task_count(w: Shown) -> nat {
    match w.board {
        Some(b) => b.tasks.len(),
        None => 0,
    }
}

/// How many team agents the board shows.
pub open spec fn pool_of(w: Shown) -> nat {
    match w.board {
        Some(b) => match b.agents {
            Some((working, idle, asleep)) => (working + idle + asleep) as nat,
            None => 0,
        },
        None => 0,
    }
}

/// The handles of the first `n` team agents.
pub open spec fn crew(n: nat) -> Seq<Seq<char>> {
    Seq::new(n, |i: int| "agent-"@ + dec((i + 1) as nat))
}

/// A call that forms a team of everyone.
pub open spec fn form_call(pool: nat) -> PlannedCall {
    (
        "form_team"@,
        JsonView::Object(
            seq![("members"@, text_array(crew(pool))), ("team"@, JsonView::Text("t1"@))],
        ),
    )
}

/// A call that creates a task.
pub open spec fn create_call(
    title: Seq<char>,
    description: Seq<char>,
    team: Option<Seq<char>>,
) -> PlannedCall {
    (
        "create_task"@,
        match team {
            Some(t) => JsonView::Object(
                seq![
                    ("description"@, JsonView::Text(description)),
                    ("team"@, JsonView::Text(t)),
                    ("title"@, JsonView::Text(title)),
                ],
            ),
            None => JsonView::Object(
                seq![
                    ("description"@, JsonView::Text(description)),
                    ("title"@, JsonView::Text(title)),
                ],
            ),
        },
    )
}

/// Calls that create `n` tasks, numbered from `from`, and the stream after them.
pub open spec fn create_calls(
    d: Draws,
    topics: Seq<Seq<char>>,
    team: Option<Seq<char>>,
    from: nat,
    n: nat,
) -> (Seq<PlannedCall>, Draws)
    decreases n,
{
    if n == 0 {
        (Seq::empty(), d)
    } else {
        let (calls, e) = create_calls(d, topics, team, from, (n - 1) as nat);
        let (title, description, f) = task_text_of(e, topics, (from + n - 1) as nat);
        (calls.push(create_call(title, description, team)), f)
    }
}

/// How a batch of tasks starts: its size, the team that the tasks belong to, the calls before it,
/// and the stream after it. The first batch takes a drawn part of the budget and may form a team of
/// everyone; the second takes the rest, for the team that most tasks belong to.
pub open spec fn batch_of(w: Shown, d: Draws, budget: u64, count: nat) -> (
    u64,
    Option<Seq<char>>,
    Seq<PlannedCall>,
    Draws,
) {
    if count == 0 {
        let (size, d1) = d.range(1, budget);
        if pool_of(w) > 0 && w.tools.offers("form_team"@) {
            let (form, d2) = d1.ratio(4, 5);
            if form {
                (size, Some("t1"@), seq![form_call(pool_of(w))], d2)
            } else {
                (size, None, Seq::empty(), d2)
            }
        } else {
            (size, None, Seq::empty(), d1)
        }
    } else {
        (
            (budget - count) as u64,
            match w.board {
                Some(b) => b.dominant(),
                None => None,
            },
            Seq::empty(),
            d,
        )
    }
}

/// The plan to fill the board.
pub open spec fn decompose(w: Shown, d: Draws, budget: u64, count: nat) -> (PlanView, Draws) {
    let (size, team, first, d1) = batch_of(w, d, budget, count);
    let (calls, d2) = create_calls(d1, topics(w.goal), team, count, size as nat);
    (PlanView::Calls(first + calls), d2)
}

fn crew_handles(n: u32) -> (r: Vec<String>)
    ensures
        texts(r@) == crew(n as nat),
{
    let mut r = no_lines();
    let mut i: u32 = 0;
    assert(texts(r@) =~= crew(0));
    while i < n
        invariant
            0 <= i <= n,
            texts(r@) == crew(i as nat),
        decreases n - i,
    {
        let mut handle = "agent-".to_owned();
        handle.push_str(dec_text(i as u64 + 1).as_str());
        push_line(&mut r, handle);
        assert(texts(r@) =~= crew((i + 1) as nat));
        i = i + 1;
    }
    r
}

impl RenderedWorld {
    /// How many tasks the board shows.
    fn task_total(&self) -> (n: usize)
        ensures
            n == task_count(self@),
    {
        match &self.board {
            Some(b) => b.count(),
            None => 0,
        }
    }

    /// How many team agents the board shows, unless there are too many to count in 32 bits.
    pub fn pool(&self) -> (r: Option<u32>)
        ensures
            match r {
                Some(n) => n == pool_of(self@),
                None => pool_of(self@) > u32::MAX,
            },
    {
        match &self.board {
            Some(b) => match b.run_health_agents {
                Some((working, idle, asleep)) => {
                    let n: u64 = working as u64 + idle as u64 + asleep as u64;
                    if n <= u32::MAX as u64 {
                        Some(n as u32)
                    } else {
                        None
                    }
                },
                None => Some(0),
            },
            None => Some(0),
        }
    }
}

/// How many calls create a task.
pub open spec fn creates(calls: Seq<PlannedCall>) -> nat
    decreases calls.len(),
{
    if calls.len() == 0 {
        0
    } else {
        creates(calls.drop_last()) + if calls.last().0 == "create_task"@ {
            1nat
        } else {
            0nat
        }
    }
}

/// How many tasks a plan creates.
pub open spec fn plan_creates(p: PlanView) -> nat {
    match p {
        PlanView::Calls(calls) => creates(calls),
        PlanView::Yield(_) => 0,
    }
}

proof fn lemma_creates_bound(calls: Seq<PlannedCall>)
    ensures
        creates(calls) <= calls.len(),
    decreases calls.len(),
{
    if calls.len() > 0 {
        lemma_creates_bound(calls.drop_last());
    }
}

proof fn lemma_creates_none(calls: Seq<PlannedCall>)
    requires
        forall|i: int| 0 <= i < calls.len() ==> (#[trigger] calls[i]).0 != "create_task"@,
    ensures
        creates(calls) == 0,
    decreases calls.len(),
{
    if calls.len() > 0 {
        lemma_creates_none(calls.drop_last());
    }
}

proof fn lemma_creates_append(a: Seq<PlannedCall>, b: Seq<PlannedCall>)
    ensures
        creates(a + b) == creates(a) + creates(b),
    decreases b.len(),
{
    if b.len() == 0 {
        assert(a + b =~= a);
    } else {
        lemma_creates_append(a, b.drop_last());
        assert((a + b).drop_last() =~= a + b.drop_last());
    }
}

fn decompose_plan(w: &RenderedWorld, d: &mut Draws, budget: u64, count: u64) -> (p: Plan)
    requires
        count < budget <= MAX_TASKS,
        count == 0 ==> pool_of(w@) <= u32::MAX,
    ensures
        worded_plan(p@),
        (p@, *final(d)) == decompose(w@, *old(d), budget, count as nat),
        plan_creates(p@) <= budget - count,
{
    let topics_here = match &w.goal {
        Some(g) => goal_words(g.as_str()),
        None => no_lines(),
    };
    let mut calls: Vec<(&'static str, Json)> = Vec::new();
    let mut team: Option<String> = None;
    let size: u64;
    assert(planned_views(calls@) =~= Seq::<PlannedCall>::empty());
    if count == 0 {
        size = d.random_range(1, budget);
        let pool: u32 = match w.pool() {
            Some(n) => n,
            None => 0,
        };
        if pool > 0 && w.tools.available("form_team") && d.random_ratio(4, 5) {
            let members = json_texts(&crew_handles(pool));
            calls.push(("form_team", object2("members", members, "team", Json::string("t1"))));
            team = Some("t1".to_owned());
            assert(planned_views(calls@) =~= seq![form_call(pool as nat)]);
        }
    } else {
        size = budget - count;
        team = match &w.board {
            Some(b) => b.dominant_team(),
            None => None,
        };
    }
    let ghost first = planned_views(calls@);
    let ghost start = *d;
    let ghost team_view = crate::mock::parse::opt_text(team);
    assert((size, team_view, first, start) == batch_of(w@, *old(d), budget, count as nat));
    proof {
        reveal_strlit("form_team");
        reveal_strlit("create_task");
        assert("form_team"@.len() != "create_task"@.len());
        lemma_creates_none(first);
    }
    let mut k: u64 = 0;
    assert(first + Seq::<PlannedCall>::empty() =~= first);
    while k < size
        invariant
            0 <= k <= size,
            size <= budget - count,
            count < budget <= MAX_TASKS,
            team_view == crate::mock::parse::opt_text(team),
            texts(topics_here@) == topics(w@.goal),
            planned_views(calls@) == first + create_calls(
                start,
                topics(w@.goal),
                team_view,
                count as nat,
                k as nat,
            ).0,
            *d == create_calls(start, topics(w@.goal), team_view, count as nat, k as nat).1,
            create_calls(start, topics(w@.goal), team_view, count as nat, k as nat).0.len() == k,
        decreases size - k,
    {
        let ghost before = planned_views(calls@);
        let (title, description) = task_text(d, &topics_here, count + k);
        let args = match &team {
            Some(t) => object3(
                "description",
                Json::string(description.as_str()),
                "team",
                Json::string(t.as_str()),
                "title",
                Json::string(title.as_str()),
            ),
            None => object2(
                "description",
                Json::string(description.as_str()),
                "title",
                Json::string(title.as_str()),
            ),
        };
        calls.push(("create_task", args));
        assert(("create_task"@, args@) == create_call(title@, description@, team_view));
        assert(planned_views(calls@) =~= before.push(("create_task"@, args@)));
        assert(planned_views(calls@) =~= first + create_calls(
            start,
            topics(w@.goal),
            team_view,
            count as nat,
            (k + 1) as nat,
        ).0);
        k = k + 1;
    }
    proof {
        let made = create_calls(start, topics(w@.goal), team_view, count as nat, size as nat).0;
        lemma_creates_append(first, made);
        lemma_creates_bound(made);
    }
    Plan::Calls(calls)
}

/// The first directive from `i` on that is waiting.
pub open spec fn pending_at(ds: Seq<ShownDirective>, i: int) -> Option<int>
    decreases ds.len() - i,
{
    if i < 0 || i >= ds.len() {
        None
    } else if ds[i].state == "pending"@ {
        Some(i)
    } else {
        pending_at(ds, i + 1)
    }
}

fn find_pending(ds: &Vec<DirectiveLine>) -> (r: Option<usize>)
    ensures
        match r {
            Some(i) => pending_at(directive_views(ds@), 0) == Some(i as int) && i < ds.len(),
            None => pending_at(directive_views(ds@), 0) is None,
        },
{
    let mut i: usize = 0;
    while i < ds.len()
        invariant
            0 <= i <= ds.len(),
            pending_at(directive_views(ds@), 0) == pending_at(directive_views(ds@), i as int),
        decreases ds.len() - i,
    {
        if ds[i].is_pending() {
            return Some(i);
        }
        i = i + 1;
    }
    None
}

/// The call that carries a directive out, whatever the tools say.
pub open spec fn act_of(directive: ShownDirective) -> Option<PlannedCall> {
    let cite = JsonView::number(directive.id);
    if directive.kind == "propose_respecialize"@ {
        match (
            value_of(directive.args, "agent"@, 0),
            value_of(directive.args, "specialty"@, 0),
        ) {
            (Some(agent), Some(slug)) => Some(
                (
                    "respecialize"@,
                    JsonView::Object(
                        seq![
                            ("agent"@, JsonView::Text(agent)),
                            ("in_response_to"@, cite),
                            (
                                "specialty"@,
                                JsonView::Object(
                                    seq![
                                        (
                                            "description"@,
                                            JsonView::Text(
                                                "Focuses on "@ + slug + " work for the team."@,
                                            ),
                                        ),
                                        (
                                            "focus"@,
                                            JsonView::Text(slug + " duties toward the goal"@),
                                        ),
                                        ("name"@, JsonView::Text(slug)),
                                    ],
                                ),
                            ),
                        ],
                    ),
                ),
            ),
            _ => None,
        }
    } else if directive.kind == "propose_reallocate"@ {
        match value_of(directive.args, "task"@, 0) {
            Some(task) => match whole(task) {
                Some(n) => Some(
                    (
                        "unassign_task"@,
                        JsonView::Object(
                            seq![
                                ("in_response_to"@, cite),
                                (
                                    "reason"@,
                                    JsonView::Text("Reallocating per the meta proposal."@),
                                ),
                                ("task"@, JsonView::number(n)),
                            ],
                        ),
                    ),
                ),
                None => None,
            },
            None => None,
        }
    } else if directive.kind == "propose_rebalance"@ {
        match (value_of(directive.args, "team"@, 0), value_of(directive.args, "members"@, 0)) {
            (Some(team), Some(members)) => match list_words(members) {
                Some(list) => Some(
                    (
                        "set_team_members"@,
                        JsonView::Object(
                            seq![
                                ("in_response_to"@, cite),
                                ("members"@, text_array(list)),
                                ("team"@, JsonView::Text(team)),
                            ],
                        ),
                    ),
                ),
                None => None,
            },
            _ => None,
        }
    } else {
        None
    }
}

fn act_call(directive: &DirectiveLine) -> (r: Option<(&'static str, Json)>)
    ensures
        match r {
            Some((verb, args)) => act_of(directive@) == Some((verb@, args@)),
            None => act_of(directive@) is None,
        },
{
    let kind = directive.kind.as_str();
    if same(kind, "propose_respecialize") {
        match (directive.args.get("agent"), directive.args.get("specialty")) {
            (Some(agent), Some(slug)) => {
                let mut description = "Focuses on ".to_owned();
                description.push_str(slug);
                description.push_str(" work for the team.");
                let mut focus = slug.to_owned();
                focus.push_str(" duties toward the goal");
                let specialty = object3(
                    "description",
                    Json::string(description.as_str()),
                    "focus",
                    Json::string(focus.as_str()),
                    "name",
                    Json::string(slug),
                );
                Some(
                    (
                        "respecialize",
                        object3(
                            "agent",
                            Json::string(agent),
                            "in_response_to",
                            Json::number(directive.id),
                            "specialty",
                            specialty,
                        ),
                    ),
                )
            },
            _ => None,
        }
    } else if same(kind, "propose_reallocate") {
        match directive.args.get("task") {
            Some(task) => match parse_number(chars_of(task).as_slice(), u64::MAX) {
                Some(n) => Some(
                    (
                        "unassign_task",
                        object3(
                            "in_response_to",
                            Json::number(directive.id),
                            "reason",
                            Json::string("Reallocating per the meta proposal."),
                            "task",
                            Json::number(n),
                        ),
                    ),
                ),
                None => None,
            },
            None => None,
        }
    } else if same(kind, "propose_rebalance") {
        match (directive.args.get("team"), directive.args.get_list("members")) {
            (Some(team), Some(members)) => Some(
                (
                    "set_team_members",
                    object3(
                        "in_response_to",
                        Json::number(directive.id),
                        "members",
                        json_texts(&members),
                        "team",
                        Json::string(team),
                    ),
                ),
            ),
            _ => None,
        }
    } else {
        None
    }
}

/// The plan for a waiting directive: in three of four cases carry it out, if that can be called;
/// else decline it, if that can be called; else wait.
pub open spec fn resolve(w: Shown, d: Draws, directive: ShownDirective) -> (PlanView, Draws) {
    let (act, d1) = d.ratio(3, 4);
    let doable = match act_of(directive) {
        Some((verb, args)) => w.tools.fit(verb, args),
        None => false,
    };
    if act && doable {
        (PlanView::Calls(seq![act_of(directive)->0]), d1)
    } else {
        let (reason, d2) = picked(d1, Phrase::Decline);
        let args = JsonView::Object(
            seq![
                ("directive"@, JsonView::number(directive.id)),
                ("reason"@, JsonView::Text(reason)),
            ],
        );
        if w.tools.fit("decline_directive"@, args) {
            (PlanView::Calls(seq![("decline_directive"@, args)]), d2)
        } else {
            yield_one_of(d2, Phrase::Waiting)
        }
    }
}

fn resolve_plan(w: &RenderedWorld, d: &mut Draws, directive: &DirectiveLine) -> (p: Plan)
    ensures
        worded_plan(p@),
        (p@, *final(d)) == resolve(w@, *old(d), directive@),
{
    let act = d.random_ratio(3, 4);
    if act {
        if let Some((verb, args)) = act_call(directive) {
            if w.tools.args_fit(verb, &args) {
                return one_call(verb, args);
            }
        }
    }
    let reason = pick(d, Phrase::Decline);
    let args = object2("directive", Json::number(directive.id), "reason", Json::string(reason));
    if w.tools.args_fit("decline_directive", &args) {
        return one_call("decline_directive", args);
    }
    yield_phrase(d, Phrase::Waiting)
}

/// The claimants that the board shows.
pub open spec fn claimants_of(w: Shown) -> Seq<Seq<char>> {
    match w.board {
        Some(b) => claimed_by(b.tasks),
        None => Seq::empty(),
    }
}

/// The plan while others work: in one of four cases a message, to one of the claimants or to all.
pub open spec fn steer(w: Shown, d: Draws) -> (PlanView, Draws) {
    if !w.tools.offers("post_message"@) {
        yield_one_of(d, Phrase::Waiting)
    } else {
        let (speak, d1) = d.ratio(1, 4);
        if !speak {
            yield_one_of(d1, Phrase::Waiting)
        } else {
            let (advice, d2) = picked(d1, Phrase::Advice);
            let topic = match w.goal {
                Some(g) => g,
                None => "the goal"@,
            };
            let body = JsonView::Text(advice + ": "@ + topic);
            let all = JsonView::Object(seq![("body"@, body), ("broadcast"@, JsonView::Bool(true))]);
            let claimants = claimants_of(w);
            if claimants.len() == 0 {
                (PlanView::Calls(seq![("post_message"@, all)]), d2)
            } else {
                let (single, d3) = d2.ratio(3, 5);
                if single {
                    let (i, d4) = d3.index(claimants.len() as usize);
                    let one = JsonView::Object(
                        seq![("body"@, body), ("to"@, JsonView::Text(claimants[i as int]))],
                    );
                    (PlanView::Calls(seq![("post_message"@, one)]), d4)
                } else {
                    (PlanView::Calls(seq![("post_message"@, all)]), d3)
                }
            }
        }
    }
}

fn steer_or_yield_plan(w: &RenderedWorld, d: &mut Draws) -> (p: Plan)
    ensures
        worded_plan(p@),
        (p@, *final(d)) == steer(w@, *old(d)),
{
    if !w.tools.available("post_message") {
        return yield_phrase(d, Phrase::Waiting);
    }
    if !d.random_ratio(1, 4) {
        return yield_phrase(d, Phrase::Waiting);
    }
    let advice = pick(d, Phrase::Advice);
    let mut body = advice.to_owned();
    body.push_str(": ");
    match &w.goal {
        Some(g) => {
            body.push_str(g.as_str());
        },
        None => {
            body.push_str("the goal");
        },
    }
    let claimants = match &w.board {
        Some(b) => b.claimants(),
        None => no_lines(),
    };
    assert(texts(claimants@).len() == claimants@.len());
    let text = Json::string(body.as_str());
    if claimants.len() > 0 {
        if d.random_ratio(3, 5) {
            let i: usize = d.random_index(claimants.len());
            assert(texts(claimants@)[i as int] == claimants@[i as int]@);
            let to = Json::string(claimants[i].as_str());
            return one_call("post_message", object2("body", text, "to", to));
        }
    }
    one_call("post_message", object2("body", text, "broadcast", Json::Bool(true)))
}

/// Lines of a list.
pub open spec fn bullets(items: Seq<Seq<char>>) -> Seq<char>
    decreases items.len(),
{
    if items.len() == 0 {
        Seq::empty()
    } else {
        bullets(items.drop_last()) + "- "@ + items.last() + "\n"@
    }
}

/// The report: the goal, and what was done.
pub open spec fn report_of(w: Shown) -> Seq<char> {
    let titles = match w.board {
        Some(b) => titles_done(b.tasks),
        None => Seq::empty(),
    };
    let goal = match w.goal {
        Some(g) => g,
        None => "Run report"@,
    };
    "# "@ + goal + "\n\n## Completed work\n"@ + (if titles.len() == 0 {
        "- (no tasks reached Done)\n"@
    } else {
        bullets(titles)
    }) + "\n"@ + dec(titles.len())
        + " task(s) completed; results are recorded in the knowledge store and the board is fully terminal.\n"@
}

fn build_report(w: &RenderedWorld) -> (s: String)
    ensures
        s@ == report_of(w@),
{
    let titles = match &w.board {
        Some(b) => b.done_titles(),
        None => no_lines(),
    };
    let ghost all = texts(titles@);
    let mut s = "# ".to_owned();
    match &w.goal {
        Some(g) => {
            s.push_str(g.as_str());
        },
        None => {
            s.push_str("Run report");
        },
    }
    s.push_str("\n\n## Completed work\n");
    let ghost head = s@;
    if titles.len() == 0 {
        s.push_str("- (no tasks reached Done)\n");
    } else {
        let mut i: usize = 0;
        assert(all.take(0) =~= Seq::<Seq<char>>::empty());
        assert(s@ =~= head + bullets(all.take(0)));
        while i < titles.len()
            invariant
                0 <= i <= titles.len(),
                all == texts(titles@),
                s@ == head + bullets(all.take(i as int)),
            decreases titles.len() - i,
        {
            assert(all.take(i + 1).drop_last() =~= all.take(i as int));
            assert(all.take(i + 1).last() == titles@[i as int]@);
            s.push_str("- ");
            s.push_str(titles[i].as_str());
            s.push_str("\n");
            assert(s@ =~= head + bullets(all.take(i + 1)));
            i = i + 1;
        }
        assert(all.take(i as int) =~= all);
    }
    s.push_str("\n");
    s.push_str(dec_text(titles.len() as u64).as_str());
    s.push_str(
        " task(s) completed; results are recorded in the knowledge store and the board is fully terminal.\n",
    );
    s
}

/// The plan when all is done.
pub open spec fn finish(w: Shown, d: Draws) -> (PlanView, Draws) {
    let args = JsonView::Object(seq![("report"@, JsonView::Text(report_of(w)))]);
    if w.tools.fit("finish_run"@, args) {
        (PlanView::Calls(seq![("finish_run"@, args)]), d)
    } else {
        yield_one_of(d, Phrase::Waiting)
    }
}

fn finish_plan(w: &RenderedWorld, d: &mut Draws) -> (p: Plan)
    ensures
        worded_plan(p@),
        (p@, *final(d)) == finish(w@, *old(d)),
{
    let args = object1("report", Json::string(build_report(w).as_str()));
    if w.tools.args_fit("finish_run", &args) {
        return one_call("finish_run", args);
    }
    yield_phrase(d, Phrase::Waiting)
}

/// The board shows a task that is open or claimed.
pub open spec fn unfinished(w: Shown) -> bool {
    match w.board {
        Some(b) => !b.terminal(),
        None => false,
    }
}

/// The orchestrator's plan: fill the board up to the budget, resolve a waiting directive, wait for
/// what is unfinished, finish.
pub open spec fn orchestrate(w: Shown, d: Draws, seed: u64) -> (PlanView, Draws) {
    let budget = budget_of(seed);
    let count = task_count(w);
    if count < budget {
        decompose(w, d, budget, count)
    } else if pending_at(w.directives, 0) is Some {
        resolve(w, d, w.directives[pending_at(w.directives, 0)->0])
    } else if unfinished(w) {
        steer(w, d)
    } else if count > 0 {
        finish(w, d)
    } else {
        yield_one_of(d, Phrase::Waiting)
    }
}

/// A plan that creates tasks keeps the board within the budget of the seed.
pub open spec fn within_budget(p: PlanView, w: Shown, seed: u64) -> bool {
    plan_creates(p) > 0 ==> task_count(w) + plan_creates(p) <= budget_of(seed) <= MAX_TASKS
}

/// Verbs other than `create_task`.
proof fn lemma_not_create()
    ensures
        "post_message"@ != "create_task"@,
        "decline_directive"@ != "create_task"@,
        "finish_run"@ != "create_task"@,
        "respecialize"@ != "create_task"@,
        "unassign_task"@ != "create_task"@,
        "set_team_members"@ != "create_task"@,
        "complete_task"@ != "create_task"@,
        "claim_task"@ != "create_task"@,
        "write_knowledge"@ != "create_task"@,
        "search_knowledge"@ != "create_task"@,
        "set_parallelism"@ != "create_task"@,
        "propose_respecialize"@ != "create_task"@,
        "propose_reallocate"@ != "create_task"@,
{
    reveal_strlit("create_task");
    reveal_strlit("post_message");
    reveal_strlit("decline_directive");
    reveal_strlit("finish_run");
    reveal_strlit("respecialize");
    reveal_strlit("unassign_task");
    reveal_strlit("set_team_members");
    reveal_strlit("complete_task");
    reveal_strlit("claim_task");
    reveal_strlit("write_knowledge");
    reveal_strlit("search_knowledge");
    reveal_strlit("set_parallelism");
    reveal_strlit("propose_respecialize");
    reveal_strlit("propose_reallocate");
    assert("create_task"@.len() == 11);
    assert("post_message"@.len() == 12);
    assert("finish_run"@.len() == 10);
    assert("respecialize"@.len() == 12);
    assert("claim_task"@.len() == 10);
}

proof fn lemma_single_creates(c: PlannedCall)
    requires
        c.0 != "create_task"@,
    ensures
        plan_creates(PlanView::Calls(seq![c])) == 0,
{
    lemma_creates_none(seq![c]);
}

fn orchestrator_plan(w: &RenderedWorld, d: &mut Draws, seed: u64) -> (p: Plan)
    requires
        task_count(w@) == 0 ==> pool_of(w@) <= u32::MAX,
    ensures
        worded_plan(p@),
        (p@, *final(d)) == orchestrate(w@, *old(d), seed),
        within_budget(p@, w@, seed),
{
    let budget: u64 = BuiltinArc::task_budget(seed);
    let count: usize = w.task_total();
    if (count as u64) < budget {
        return decompose_plan(w, d, budget, count as u64);
    }
    proof {
        lemma_not_create();
        lemma_orchestrate_creates(w@, *d, seed);
    }
    if let Some(i) = find_pending(&w.directives) {
        assert(directive_views(w.directives@)[i as int] == w.directives@[i as int]@);
        return resolve_plan(w, d, &w.directives[i]);
    }
    let busy = match &w.board {
        Some(b) => !b.all_terminal(),
        None => false,
    };
    if busy {
        return steer_or_yield_plan(w, d);
    }
    if count > 0 {
        return finish_plan(w, d);
    }
    yield_phrase(d, Phrase::Waiting)
}

/// Only filling the board creates tasks.
proof fn lemma_orchestrate_creates(w: Shown, d: Draws, seed: u64)
    requires
        task_count(w) >= budget_of(seed),
    ensures
        plan_creates(orchestrate(w, d, seed).0) == 0,
{
    lemma_not_create();
    match orchestrate(w, d, seed).0 {
        PlanView::Calls(calls) => {
            assert(calls.len() == 1);
            assert(calls[0].0 != "create_task"@);
            lemma_creates_none(calls);
        },
        PlanView::Yield(_) => {},
    }
}

// ---------------------------------------------------------------------------
// Team agents.
// ---------------------------------------------------------------------------

/// The work verbs that may be called.
pub open spec fn work_verbs(tools: ShownTools) -> Seq<Seq<char>> {
    (if tools.offers("write_knowledge"@) {
        seq!["write_knowledge"@]
    } else {
        Seq::empty()
    }) + (if tools.offers("post_message"@) {
        seq!["post_message"@]
    } else {
        Seq::empty()
    }) + (if tools.offers("search_knowledge"@) {
        seq!["search_knowledge"@]
    } else {
        Seq::empty()
    })
}

/// The arguments of a work call on a claimed task, and the stream after them.
pub open spec fn work_args(d: Draws, verb: Seq<char>, claimed: ShownClaim) -> (JsonView, Draws) {
    if verb == "write_knowledge"@ {
        let (note, e) = picked(d, Phrase::Note);
        (JsonView::Object(seq![("text"@, JsonView::Text(claimed.title + " — "@ + note))]), e)
    } else if verb == "search_knowledge"@ {
        let ts = topics(Some(claimed.title));
        let query = if ts.len() > 0 {
            ts[0]
        } else {
            "prior work"@
        };
        (JsonView::Object(seq![("query"@, JsonView::Text(query))]), d)
    } else {
        let (status, e) = picked(d, Phrase::Status);
        let body = JsonView::Text("Task "@ + dec(claimed.id as nat) + ": "@ + status);
        (
            match claimed.team {
                Some(t) => JsonView::Object(seq![("body"@, body), ("team"@, JsonView::Text(t))]),
                None => JsonView::Object(
                    seq![("body"@, body), ("to"@, JsonView::Text("orchestrator"@))],
                ),
            },
            e,
        )
    }
}

/// The plan for a claimed task that takes more work: one of the work verbs.
pub open spec fn work(w: Shown, d: Draws, claimed: ShownClaim) -> (PlanView, Draws) {
    let verbs = work_verbs(w.tools);
    if verbs.len() == 0 {
        yield_one_of(d, Phrase::Idle)
    } else {
        let (i, d1) = d.index(verbs.len() as usize);
        let (args, d2) = work_args(d1, verbs[i as int], claimed);
        (PlanView::Calls(seq![(verbs[i as int], args)]), d2)
    }
}

/// What a list of verbs holds.
pub open spec fn verb_views(v: Seq<&'static str>) -> Seq<Seq<char>> {
    Seq::new(v.len(), |i: int| v[i]@)
}

fn work_options(tools: &ToolIndex) -> (v: Vec<&'static str>)
    ensures
        verb_views(v@) == work_verbs(tools@),
        forall|i: int|
            0 <= i < v.len() ==> (#[trigger] v@[i])@ == "write_knowledge"@ || v@[i]@
                == "post_message"@ || v@[i]@ == "search_knowledge"@,
{
    let mut v: Vec<&'static str> = Vec::new();
    if tools.available("write_knowledge") {
        v.push("write_knowledge");
    }
    if tools.available("post_message") {
        v.push("post_message");
    }
    if tools.available("search_knowledge") {
        v.push("search_knowledge");
    }
    assert(verb_views(v@) =~= work_verbs(tools@));
    v
}

fn work_action_plan(w: &RenderedWorld, d: &mut Draws, claimed: &ClaimedTask) -> (p: Plan)
    ensures
        worded_plan(p@),
        (p@, *final(d)) == work(w@, *old(d), claimed@),
        plan_creates(p@) == 0,
{
    proof {
        lemma_not_create();
    }
    let options = work_options(&w.tools);
    assert(verb_views(options@).len() == options@.len());
    if options.len() == 0 {
        return yield_phrase(d, Phrase::Idle);
    }
    let i: usize = d.random_index(options.len());
    let verb = options[i];
    assert(verb_views(options@)[i as int] == verb@);
    let args = if same(verb, "write_knowledge") {
        let note = pick(d, Phrase::Note);
        let mut text = claimed.title.clone();
        text.push_str(" — ");
        text.push_str(note);
        object1("text", Json::string(text.as_str()))
    } else if same(verb, "search_knowledge") {
        let ts = goal_words(claimed.title.as_str());
        assert(texts(ts@).len() == ts@.len());
        if ts.len() > 0 {
            assert(texts(ts@)[0] == ts@[0]@);
            object1("query", Json::string(ts[0].as_str()))
        } else {
            object1("query", Json::string("prior work"))
        }
    } else {
        let status = pick(d, Phrase::Status);
        let mut body = "Task ".to_owned();
        body.push_str(dec_text(claimed.id).as_str());
        body.push_str(": ");
        body.push_str(status);
        let text = Json::string(body.as_str());
        match &claimed.team {
            Some(t) => object2("body", text, "team", Json::string(t.as_str())),
            None => object2("body", text, "to", Json::string("orchestrator")),
        }
    };
    proof {
        lemma_single_creates((verb@, args@));
    }
    one_call(verb, args)
}

/// The agent has done enough on a claimed task: it has reached the quota, or older activity was
/// dropped from the prompt.
pub open spec fn enough(w: Shown, quota: u64) -> bool {
    let recent = match w.recent {
        Some(r) => r,
        None => RecentActivity { degraded: false, work_actions: 0 },
    };
    recent.degraded || recent.work_actions >= quota
}

/// The result that completes a task, and the stream after it.
pub open spec fn result_of(d: Draws, title: Seq<char>) -> (JsonView, Draws) {
    let (gist, e) = picked(d, Phrase::Completion);
    (JsonView::Object(seq![("result"@, JsonView::Text(title + ": "@ + gist + "."@))]), e)
}

/// A team agent's plan: complete what it has done enough on, work on what it has claimed, or claim
/// the open task of least number.
pub open spec fn collaborate(w: Shown, d: Draws, seed: u64, handle: Seq<char>) -> (
    PlanView,
    Draws,
) {
    match w.claimed {
        Some(claimed) => if enough(w, quota_of(seed, handle, claimed.id)) {
            let (args, e) = result_of(d, claimed.title);
            if w.tools.fit("complete_task"@, args) {
                (PlanView::Calls(seq![("complete_task"@, args)]), e)
            } else {
                yield_one_of(e, Phrase::Idle)
            }
        } else {
            work(w, d, claimed)
        },
        None => {
            let open = match w.board {
                Some(b) => b.lowest(),
                None => None,
            };
            match open {
                Some(t) => {
                    let args = JsonView::Object(seq![("task"@, JsonView::number(t.id))]);
                    if w.tools.fit("claim_task"@, args) {
                        (PlanView::Calls(seq![("claim_task"@, args)]), d)
                    } else {
                        yield_one_of(d, Phrase::Idle)
                    }
                },
                None => yield_one_of(d, Phrase::Idle),
            }
        },
    }
}

fn team_plan(w: &RenderedWorld, d: &mut Draws, seed: u64, handle: &str) -> (p: Plan)
    ensures
        worded_plan(p@),
        (p@, *final(d)) == collaborate(w@, *old(d), seed, handle@),
        plan_creates(p@) == 0,
{
    proof {
        lemma_not_create();
    }
    if let Some(claimed) = &w.claimed {
        let quota: u64 = BuiltinArc::work_quota(seed, handle, claimed.id);
        let done = match w.recent_activity {
            Some(r) => r.degraded || r.work_actions as u64 >= quota,
            None => false,
        };
        if done {
            let gist = pick(d, Phrase::Completion);
            let mut result = claimed.title.clone();
            result.push_str(": ");
            result.push_str(gist);
            result.push_str(".");
            let args = object1("result", Json::string(result.as_str()));
            if w.tools.args_fit("complete_task", &args) {
                proof {
                    lemma_single_creates(("complete_task"@, args@));
                }
                return one_call("complete_task", args);
            }
            return yield_phrase(d, Phrase::Idle);
        }
        return work_action_plan(w, d, claimed);
    }
    let open = match &w.board {
        Some(b) => b.lowest_open(),
        None => None,
    };
    if let Some(t) = open {
        let args = object1("task", Json::number(t.id));
        if w.tools.args_fit("claim_task", &args) {
            proof {
                lemma_single_creates(("claim_task"@, args@));
            }
            return one_call("claim_task", args);
        }
    }
    yield_phrase(d, Phrase::Idle)
}

// ---------------------------------------------------------------------------
// Meta-agents.
// ---------------------------------------------------------------------------

/// An idle generalist.
pub open spec fn is_idle_generalist(a: ShownAgent) -> bool {
    a.state == AgentStateLine::Idle && a.specialty == "generalist"@
}

/// The idle generalists among agents.
pub open spec fn idle_generalists(agents: Seq<ShownAgent>) -> Seq<ShownAgent>
    decreases agents.len(),
{
    if agents.len() == 0 {
        Seq::empty()
    } else {
        let rest = idle_generalists(agents.drop_last());
        if is_idle_generalist(agents.last()) {
            rest.push(agents.last())
        } else {
            rest
        }
    }
}

/// The tasks that agents are working on.
pub open spec fn tasks_in_work(agents: Seq<ShownAgent>) -> Seq<u64>
    decreases agents.len(),
{
    if agents.len() == 0 {
        Seq::empty()
    } else {
        let rest = tasks_in_work(agents.drop_last());
        match agents.last().state {
            AgentStateLine::Working { task } => rest.push(task),
            _ => rest,
        }
    }
}

fn idle_handles(agents: &Vec<UtilizationLine>) -> (r: Vec<String>)
    ensures
        r.len() == idle_generalists(agent_views(agents@)).len(),
        forall|i: int|
            0 <= i < r.len() ==> (#[trigger] r@[i])@ == idle_generalists(
                agent_views(agents@),
            )[i].agent,
{
    let mut r: Vec<String> = Vec::new();
    let ghost all = agent_views(agents@);
    let mut i: usize = 0;
    assert(all.take(0) =~= Seq::<ShownAgent>::empty());
    while i < agents.len()
        invariant
            0 <= i <= agents.len(),
            all == agent_views(agents@),
            r.len() == idle_generalists(all.take(i as int)).len(),
            forall|k: int|
                0 <= k < r.len() ==> (#[trigger] r@[k])@ == idle_generalists(
                    all.take(i as int),
                )[k].agent,
        decreases agents.len() - i,
    {
        assert(all.take(i + 1).drop_last() =~= all.take(i as int));
        assert(all.take(i + 1).last() == agents@[i as int]@);
        if agents[i].state == AgentStateLine::Idle && same(
            agents[i].specialty.as_str(),
            "generalist",
        ) {
            r.push(agents[i].agent.clone());
        }
        i = i + 1;
    }
    assert(all.take(i as int) =~= all);
    r
}

fn working_tasks(agents: &Vec<UtilizationLine>) -> (r: Vec<u64>)
    ensures
        r@ == tasks_in_work(agent_views(agents@)),
{
    let mut r: Vec<u64> = Vec::new();
    let ghost all = agent_views(agents@);
    let mut i: usize = 0;
    assert(all.take(0) =~= Seq::<ShownAgent>::empty());
    while i < agents.len()
        invariant
            0 <= i <= agents.len(),
            all == agent_views(agents@),
            r@ == tasks_in_work(all.take(i as int)),
        decreases agents.len() - i,
    {
        assert(all.take(i + 1).drop_last() =~= all.take(i as int));
        assert(all.take(i + 1).last() == agents@[i as int]@);
        if let AgentStateLine::Working { task } = agents[i].state {
            r.push(task);
        }
        i = i + 1;
    }
    assert(all.take(i as int) =~= all);
    r
}

/// The proposal to move a task, if one is being worked on and that may be proposed.
pub open spec fn reallocation(w: Shown, d: Draws) -> (Option<PlannedCall>, Draws) {
    let tasks = tasks_in_work(w.utilization);
    if tasks.len() == 0 {
        (None, d)
    } else {
        let (i, e) = d.index(tasks.len() as usize);
        let args = JsonView::Object(
            seq![
                ("reason"@, JsonView::Text("Long-running claim; consider moving it."@)),
                ("task"@, JsonView::number(tasks[i as int])),
            ],
        );
        if w.tools.fit("propose_reallocate"@, args) {
            (Some(("propose_reallocate"@, args)), e)
        } else {
            (None, e)
        }
    }
}

/// The judgment proposal: a specialty for an idle generalist, else to move a task.
pub open spec fn judgment(w: Shown, d: Draws) -> (Option<PlannedCall>, Draws) {
    let idle = idle_generalists(w.utilization);
    if idle.len() == 0 {
        reallocation(w, d)
    } else {
        let (i, d1) = d.index(idle.len() as usize);
        let (slug, d2) = picked(d1, Phrase::Specialty);
        let args = JsonView::Object(
            seq![
                ("agent"@, JsonView::Text(idle[i as int].agent)),
                ("specialty"@, JsonView::Text(slug)),
            ],
        );
        if w.tools.fit("propose_respecialize"@, args) {
            (Some(("propose_respecialize"@, args)), d2)
        } else {
            reallocation(w, d2)
        }
    }
}

fn judgment_call(w: &RenderedWorld, d: &mut Draws) -> (r: Option<(&'static str, Json)>)
    ensures
        match r {
            Some((verb, args)) => (Some((verb@, args@)), *final(d)) == judgment(w@, *old(d)),
            None => (None::<PlannedCall>, *final(d)) == judgment(w@, *old(d)),
        },
{
    let idle = idle_handles(&w.utilization);
    if idle.len() > 0 {
        let i: usize = d.random_index(idle.len());
        let slug = pick(d, Phrase::Specialty);
        let args = object2(
            "agent",
            Json::string(idle[i].as_str()),
            "specialty",
            Json::string(slug),
        );
        if w.tools.args_fit("propose_respecialize", &args) {
            return Some(("propose_respecialize", args));
        }
    }
    let tasks = working_tasks(&w.utilization);
    if tasks.len() > 0 {
        let i: usize = d.random_index(tasks.len());
        let args = object2(
            "reason",
            Json::string("Long-running claim; consider moving it."),
            "task",
            Json::number(tasks[i]),
        );
        if w.tools.args_fit("propose_reallocate", &args) {
            return Some(("propose_reallocate", args));
        }
    }
    None
}

/// The plan for the mechanical tier: set the parallelism to a drawn size, if that may be called.
pub open spec fn mechanical(w: Shown, d: Draws, used: bool) -> (PlanView, Draws) {
    if used {
        yield_one_of(d, Phrase::Observing)
    } else {
        let bound = if w.utilization.len() > 1 {
            w.utilization.len() as usize
        } else {
            1
        };
        let (n, e) = d.size(bound);
        let args = JsonView::Object(seq![("target"@, JsonView::number(n as u64))]);
        if w.tools.fit("set_parallelism"@, args) {
            (PlanView::Calls(seq![("set_parallelism"@, args)]), e)
        } else {
            yield_one_of(e, Phrase::Observing)
        }
    }
}

/// A meta-agent's plan: a judgment proposal if that tier is unused and there is one to make, else a
/// mechanical directive if that tier is unused.
pub open spec fn observe(w: Shown, d: Draws) -> (PlanView, Draws) {
    let used = match w.outcomes {
        Some(o) => o,
        None => DirectiveOutcomes { judgment_used: false, mechanical_used: false },
    };
    if used.judgment_used {
        mechanical(w, d, used.mechanical_used)
    } else {
        match judgment(w, d) {
            (Some(call), e) => (PlanView::Calls(seq![call]), e),
            (None, e) => mechanical(w, e, used.mechanical_used),
        }
    }
}

fn meta_plan(w: &RenderedWorld, d: &mut Draws) -> (p: Plan)
    ensures
        worded_plan(p@),
        (p@, *final(d)) == observe(w@, *old(d)),
        plan_creates(p@) == 0,
{
    proof {
        lemma_not_create();
    }
    let used = match w.directive_outcomes {
        Some(o) => o,
        None => DirectiveOutcomes { judgment_used: false, mechanical_used: false },
    };
    if !used.judgment_used {
        if let Some((verb, args)) = judgment_call(w, d) {
            proof {
                lemma_single_creates((verb@, args@));
            }
            return one_call(verb, args);
        }
    }
    if !used.mechanical_used {
        let bound: usize = if w.utilization.len() > 1 {
            w.utilization.len()
        } else {
            1
        };
        let n: usize = d.random_size(bound);
        let args = object1("target", Json::number(n as u64));
        if w.tools.args_fit("set_parallelism", &args) {
            proof {
                lemma_single_creates(("set_parallelism"@, args@));
            }
            return one_call("set_parallelism", args);
        }
    }
    yield_phrase(d, Phrase::Observing)
}

// ---------------------------------------------------------------------------
// Replies.
// ---------------------------------------------------------------------------

/// An ASCII letter or digit.
pub open spec fn ascii_alphanumeric(c: char) -> bool {
    ('0' <= c && c <= '9') || ('a' <= c && c <= 'z') || ('A' <= c && c <= 'Z')
}

/// The ASCII letters and digits of a text.
pub open spec fn ascii_gist(s: Seq<char>) -> Seq<char>
    decreases s.len(),
{
    if s.len() == 0 {
        s
    } else if ascii_alphanumeric(s.last()) {
        ascii_gist(s.drop_last()).push(s.last())
    } else {
        ascii_gist(s.drop_last())
    }
}

/// The handle of an identity text, or the text itself where it does not read.
pub open spec fn handle_or_raw(user: Seq<char>) -> Seq<char> {
    match user_of(user) {
        Some(u) => u.who().handle(),
        None => user,
    }
}

/// The gist of who asks: letters and digits of the handle, or `anon` if there are none.
pub open spec fn gist(user: Seq<char>) -> Seq<char> {
    let g = ascii_gist(handle_or_raw(user));
    if g.len() == 0 {
        "anon"@
    } else {
        g
    }
}

/// The handle of an identity text, or the text itself where it does not read.
pub fn handle_of(user: &str) -> (s: String)
    ensures
        s@ == handle_or_raw(user@),
{
    match ParsedUser::parse(user) {
        Some(u) => u.agent().as_str(),
        None => user.to_owned(),
    }
}

/// The gist of who asks.
pub fn handle_ish(user: &str) -> (s: String)
    ensures
        s@ == gist(user@),
{
    let base = chars_of(handle_of(user).as_str());
    let mut kept: Vec<char> = Vec::new();
    let mut i: usize = 0;
    assert(base@.take(0) =~= Seq::<char>::empty());
    while i < base.len()
        invariant
            0 <= i <= base.len(),
            kept@ == ascii_gist(base@.take(i as int)),
        decreases base.len() - i,
    {
        assert(base@.take(i + 1).drop_last() =~= base@.take(i as int));
        let c = base[i];
        if ('0' <= c && c <= '9') || ('a' <= c && c <= 'z') || ('A' <= c && c <= 'Z') {
            kept.push(c);
        }
        i = i + 1;
    }
    assert(base@.take(i as int) =~= base@);
    if kept.len() == 0 {
        "anon".to_owned()
    } else {
        crate::text::text_of(kept.as_slice())
    }
}

/// The id of the `n`-th call of a completion.
pub open spec fn call_id(user: Seq<char>, call_seq: u64, n: nat) -> Seq<char> {
    "call_"@ + gist(user) + "_"@ + dec(call_seq as nat) + "_"@ + dec(n)
}

/// Writes the id of the `n`-th call of a completion.
pub fn call_id_text(user: &str, call_seq: u64, n: u64) -> (s: String)
    ensures
        s@ == call_id(user@, call_seq, n as nat),
{
    let mut s = "call_".to_owned();
    s.push_str(handle_ish(user).as_str());
    s.push_str("_");
    s.push_str(dec_text(call_seq).as_str());
    s.push_str("_");
    s.push_str(dec_text(n).as_str());
    s
}

/// The planned calls that may be made.
pub open spec fn fitting(calls: Seq<PlannedCall>, tools: ShownTools) -> Seq<PlannedCall>
    decreases calls.len(),
{
    if calls.len() == 0 {
        calls
    } else {
        let rest = fitting(calls.drop_last(), tools);
        if tools.fit(calls.last().0, calls.last().1) {
            rest.push(calls.last())
        } else {
            rest
        }
    }
}

/// The calls that are made: those that fit, and only the first where calls may not be parallel.
pub open spec fn made_calls(
    calls: Seq<PlannedCall>,
    tools: ShownTools,
    parallel: Option<bool>,
) -> Seq<PlannedCall> {
    let fit = fitting(calls, tools);
    if parallel == Some(false) && fit.len() > 1 {
        fit.take(1)
    } else {
        fit
    }
}

/// Calls as a reply carries them.
pub open spec fn sent_calls(calls: Seq<PlannedCall>, user: Seq<char>, call_seq: u64) -> Seq<
    CallView,
> {
    Seq::new(
        calls.len(),
        |i: int|
            CallView {
                id: call_id(user, call_seq, (i + 1) as nat),
                name: calls[i].0,
                arguments: calls[i].1.text(),
            },
    )
}

/// The reply that carries a plan out. A plan of which nothing may be called says something instead.
pub open spec fn realized(
    plan: PlanView,
    tools: ShownTools,
    parallel: Option<bool>,
    user: Seq<char>,
    call_seq: u64,
    d: Draws,
) -> DecisionView {
    match plan {
        PlanView::Yield(text) => said(text),
        PlanView::Calls(calls) => {
            let made = made_calls(calls, tools, parallel);
            if made.len() == 0 {
                said(picked(d, Phrase::Idle).0)
            } else {
                DecisionView {
                    content: None,
                    calls: Some(sent_calls(made, user, call_seq)),
                    finish: FinishReason::ToolCalls,
                }
            }
        },
    }
}

fn fitting_calls(calls: &Vec<(&'static str, Json)>, tools: &ToolIndex) -> (r: Vec<usize>)
    ensures
        forall|i: int| 0 <= i < r.len() ==> (#[trigger] r@[i]) < calls.len(),
        r.len() == fitting(planned_views(calls@), tools@).len(),
        forall|i: int|
            0 <= i < r.len() ==> planned_views(calls@)[(#[trigger] r@[i]) as int] == fitting(
                planned_views(calls@),
                tools@,
            )[i],
{
    let mut r: Vec<usize> = Vec::new();
    let ghost all = planned_views(calls@);
    let mut i: usize = 0;
    assert(all.take(0) =~= Seq::<PlannedCall>::empty());
    while i < calls.len()
        invariant
            0 <= i <= calls.len(),
            all == planned_views(calls@),
            r.len() == fitting(all.take(i as int), tools@).len(),
            forall|k: int| 0 <= k < r.len() ==> (#[trigger] r@[k]) < i,
            forall|k: int|
                0 <= k < r.len() ==> all[(#[trigger] r@[k]) as int] == fitting(
                    all.take(i as int),
                    tools@,
                )[k],
        decreases calls.len() - i,
    {
        assert(all.take(i + 1).drop_last() =~= all.take(i as int));
        assert(all.take(i + 1).last() == all[i as int]);
        if tools.args_fit(calls[i].0, &calls[i].1) {
            r.push(i);
        }
        i = i + 1;
    }
    assert(all.take(i as int) =~= all);
    r
}

/// How many calls of a reply create a task.
pub open spec fn reply_creates(calls: Seq<CallView>) -> nat
    decreases calls.len(),
{
    if calls.len() == 0 {
        0
    } else {
        reply_creates(calls.drop_last()) + if calls.last().name == "create_task"@ {
            1nat
        } else {
            0nat
        }
    }
}

proof fn lemma_sent_creates(calls: Seq<PlannedCall>, user: Seq<char>, call_seq: u64)
    ensures
        reply_creates(sent_calls(calls, user, call_seq)) == creates(calls),
    decreases calls.len(),
{
    if calls.len() > 0 {
        lemma_sent_creates(calls.drop_last(), user, call_seq);
        assert(sent_calls(calls, user, call_seq).drop_last() =~= sent_calls(
            calls.drop_last(),
            user,
            call_seq,
        ));
    }
}

proof fn lemma_fitting_creates(calls: Seq<PlannedCall>, tools: ShownTools)
    ensures
        creates(fitting(calls, tools)) <= creates(calls),
    decreases calls.len(),
{
    if calls.len() > 0 {
        lemma_fitting_creates(calls.drop_last(), tools);
        let rest = fitting(calls.drop_last(), tools);
        assert(rest.push(calls.last()).drop_last() =~= rest);
    }
}

proof fn lemma_take_creates(calls: Seq<PlannedCall>, n: int)
    requires
        0 <= n <= calls.len(),
    ensures
        creates(calls.take(n)) <= creates(calls),
    decreases calls.len(),
{
    if n == calls.len() {
        assert(calls.take(n) =~= calls);
    } else {
        lemma_take_creates(calls.drop_last(), n);
        assert(calls.drop_last().take(n) =~= calls.take(n));
    }
}

proof fn lemma_realized_creates(
    plan: PlanView,
    tools: ShownTools,
    parallel: Option<bool>,
    user: Seq<char>,
    call_seq: u64,
    d: Draws,
)
    ensures
        match realized(plan, tools, parallel, user, call_seq, d).calls {
            Some(calls) => reply_creates(calls) <= plan_creates(plan),
            None => true,
        },
{
    if let PlanView::Calls(calls) = plan {
        let fit = fitting(calls, tools);
        lemma_fitting_creates(calls, tools);
        if fit.len() > 1 {
            lemma_take_creates(fit, 1);
        }
        lemma_sent_creates(made_calls(calls, tools, parallel), user, call_seq);
    }
}

/// Every phrase has words.
proof fn lemma_worded(t: Seq<char>)
    requires
        worded(t),
    ensures
        t.len() > 0,
{
    if after_prefix(t, "Proceeding with: "@) is Some {
        reveal_strlit("Proceeding with: ");
    } else {
        let phrase = choose|phrase: Phrase| (#[trigger] phrase.options()).contains(t);
        lemma_options(phrase);
        let i = choose|i: int| 0 <= i < phrase.options().len() && phrase.options()[i] == t;
        assert(phrase.options()[i].len() > 0);
    }
}

fn realize(plan: Plan, w: &RenderedWorld, req: &ChatRequest, id: &WireIdentity, d: &mut Draws) -> (r:
    ChatDecision)
    requires
        worded_plan(plan@),
    ensures
        r@.calls is None ==> r@.content is Some && worded(r@.content->0),
        r@ == realized(
            plan@,
            w@.tools,
            req.parallel_tool_calls,
            id.user@,
            id.call_seq,
            *old(d),
        ),
{
    let calls = match plan {
        Plan::Yield(text) => {
            return say(text);
        },
        Plan::Calls(calls) => calls,
    };
    let fit = fitting_calls(&calls, &w.tools);
    let single = match req.parallel_tool_calls {
        Some(p) => !p,
        None => false,
    };
    let total: usize = if single && fit.len() > 1 {
        1
    } else {
        fit.len()
    };
    let ghost made = made_calls(planned_views(calls@), w@.tools, req.parallel_tool_calls);
    assert(made.len() == total);
    if total == 0 {
        return say(pick(d, Phrase::Idle).to_owned());
    }
    let mut sent: Vec<ToolCall> = Vec::new();
    let mut i: usize = 0;
    while i < total
        invariant
            0 <= i <= total,
            total <= fit.len(),
            made.len() == total,
            sent.len() == i,
            forall|k: int| 0 <= k < fit.len() ==> (#[trigger] fit@[k]) < calls.len(),
            forall|k: int|
                0 <= k < total ==> planned_views(calls@)[(#[trigger] fit@[k]) as int] == made[k],
            forall|k: int|
                0 <= k < i ==> (#[trigger] sent@[k])@ == sent_calls(
                    made,
                    id.user@,
                    id.call_seq,
                )[k],
        decreases total - i,
    {
        let at: usize = fit[i];
        assert(planned_views(calls@)[at as int] == made[i as int]);
        sent.push(
            ToolCall {
                id: call_id_text(id.user.as_str(), id.call_seq, i as u64 + 1),
                name: calls[at].0.to_owned(),
                arguments: calls[at].1.render(),
            },
        );
        i = i + 1;
    }
    assert(call_views(sent@) =~= sent_calls(made, id.user@, id.call_seq));
    ChatDecision {
        message: ResponseMessage { content: None, tool_calls: Some(sent) },
        finish: FinishReason::ToolCalls,
    }
}

/// What a client that is no agent is told, and the stream after it.
pub open spec fn plain_reply(w: Shown, d: Draws) -> (PlanView, Draws) {
    match w.goal {
        Some(g) => (PlanView::Yield("Proceeding with: "@ + g), d),
        None => yield_one_of(d, Phrase::Plain),
    }
}

fn plain_client_plan(w: &RenderedWorld, d: &mut Draws) -> (p: Plan)
    ensures
        worded_plan(p@),
        (p@, *final(d)) == plain_reply(w@, *old(d)),
{
    match &w.goal {
        Some(g) => {
            let mut s = "Proceeding with: ".to_owned();
            s.push_str(g.as_str());
            proof {
                crate::legible::lemma_prefix("Proceeding with: "@, g@);
            }
            Plan::Yield(s)
        },
        None => yield_phrase(d, Phrase::Plain),
    }
}

/// The plan for what a request shows, by who asks.
pub open spec fn arc_plan(w: Shown, user: Seq<char>, seed: u64, d: Draws) -> (PlanView, Draws) {
    match user_of(user) {
        Some(UserView::Orchestrator) => orchestrate(w, d, seed),
        Some(UserView::TeamAgent { agent, .. }) => collaborate(w, d, seed, agent.handle()),
        Some(UserView::MetaAgent { .. }) => observe(w, d),
        None => plain_reply(w, d),
    }
}

/// The reply to what a request shows. A turn that has acted says something and ends.
pub open spec fn arc_answer(
    w: Shown,
    parallel: Option<bool>,
    user: Seq<char>,
    call_seq: u64,
    seed: u64,
) -> DecisionView {
    let d = stream(seed, user, call_seq);
    if w.turn.outcomes > 0 {
        said(picked(d, Phrase::AfterAction).0)
    } else {
        let (plan, e) = arc_plan(w, user, seed, d);
        realized(plan, w.tools, parallel, user, call_seq, e)
    }
}

/// The built-in reply to a request.
pub open spec fn arc_reply(
    req: ChatRequest,
    user: Seq<char>,
    call_seq: u64,
    seed: u64,
) -> DecisionView {
    arc_answer(shown(req), req.parallel_tool_calls, user, call_seq, seed)
}

/// A reply that creates tasks keeps the board that a request shows within the budget of the seed.
pub open spec fn reply_within_budget(r: DecisionView, req: ChatRequest, seed: u64) -> bool {
    match r.calls {
        Some(calls) => reply_creates(calls) > 0 ==> task_count(shown(req)) + reply_creates(calls)
            <= budget_of(seed) <= MAX_TASKS,
        None => true,
    }
}

/// The team agents that the board shows can be counted in 32 bits, wherever they are counted: when
/// the orchestrator fills an empty board.
pub open spec fn countable(w: Shown, user: Seq<char>) -> bool {
    w.turn.outcomes == 0 && user_of(user) == Some(UserView::Orchestrator) && task_count(w) == 0
        ==> pool_of(w) <= u32::MAX
}

/// Something that decides chat replies.
pub trait BehaviorModel {
    /// The calls that it can decide on.
    spec fn accepts(&self, req: ChatRequest, user: Seq<char>, call_seq: u64) -> bool;

    /// What it decides: a function of the request, who asks, the number of the call and the seed.
    spec fn decides(&self, req: ChatRequest, user: Seq<char>, call_seq: u64, seed: u64) ->
        DecisionView;

    /// Whether it can decide on a call.
    fn can_answer(&self, req: &ChatRequest, id: &WireIdentity) -> (b: bool)
        ensures
            b == self.accepts(*req, id.user@, id.call_seq),
    ;

    /// Decides a reply.
    fn chat(&self, req: &ChatRequest, id: &WireIdentity) -> (r: ChatDecision)
        requires
            self.accepts(*req, id.user@, id.call_seq),
        ensures
            r@ == self.decides(*req, id.user@, id.call_seq, id.seed),
    ;
}

impl BehaviorModel for BuiltinArc {
    open spec fn accepts(&self, req: ChatRequest, user: Seq<char>, call_seq: u64) -> bool {
        countable(shown(req), user)
    }

    open spec fn decides(
        &self,
        req: ChatRequest,
        user: Seq<char>,
        call_seq: u64,
        seed: u64,
    ) -> DecisionView {
        arc_reply(req, user, call_seq, seed)
    }

    fn can_answer(&self, req: &ChatRequest, id: &WireIdentity) -> (b: bool) {
        let w = RenderedWorld::parse(req);
        let leads = match ParsedUser::parse(id.user.as_str()) {
            Some(ParsedUser::Orchestrator) => true,
            _ => false,
        };
        w.turn_local.acted() || !leads || w.task_total() > 0 || w.pool().is_some()
    }

    fn chat(&self, req: &ChatRequest, id: &WireIdentity) -> (r: ChatDecision)
        ensures
            reply_within_budget(r@, *req, id.seed),
            r@.calls is None ==> r@.content is Some && worded(r@.content->0) && r@.content->0.len()
                > 0,
    {
        let w = RenderedWorld::parse(req);
        let mut d = derive_rng(id.seed, id.user.as_str(), id.call_seq);
        if w.turn_local.acted() {
            let text = pick(&mut d, Phrase::AfterAction);
            assert(Phrase::AfterAction.options().contains(text@));
            proof {
                lemma_worded(text@);
            }
            return say(text.to_owned());
        }
        let plan = match ParsedUser::parse(id.user.as_str()) {
            Some(ParsedUser::Orchestrator) => orchestrator_plan(&w, &mut d, id.seed),
            Some(ParsedUser::TeamAgent { agent, .. }) => {
                let handle = agent.as_str();
                team_plan(&w, &mut d, id.seed, handle.as_str())
            },
            Some(ParsedUser::MetaAgent { .. }) => meta_plan(&w, &mut d),
            None => plain_client_plan(&w, &mut d),
        };
        proof {
            lemma_realized_creates(
                plan@,
                w@.tools,
                req.parallel_tool_calls,
                id.user@,
                id.call_seq,
                d,
            );
        }
        let r = realize(plan, &w, req, id, &mut d);
        proof {
            if r@.calls is None {
                lemma_worded(r@.content->0);
            }
        }
        r
    }
}

// ---------------------------------------------------------------------------
// Laws.
// ---------------------------------------------------------------------------

proof fn lemma_fitting(calls: Seq<PlannedCall>, tools: ShownTools)
    ensures
        forall|i: int|
            0 <= i < fitting(calls, tools).len() ==> tools.fit(
                (#[trigger] fitting(calls, tools)[i]).0,
                fitting(calls, tools)[i].1,
            ),
    decreases calls.len(),
{
    if calls.len() > 0 {
        lemma_fitting(calls.drop_last(), tools);
        let rest = fitting(calls.drop_last(), tools);
        assert forall|i: int| 0 <= i < fitting(calls, tools).len() implies tools.fit(
            (#[trigger] fitting(calls, tools)[i]).0,
            fitting(calls, tools)[i].1,
        ) by {
            if i < rest.len() {
                assert(fitting(calls, tools)[i] == rest[i]);
            }
        }
    }
}

/// A call is one of a tool on offer, with arguments that fit the tool's schema.
pub open spec fn is_valid_call(c: CallView, tools: ShownTools) -> bool {
    exists|args: JsonView| #[trigger] tools.fit(c.name, args) && c.arguments == args.text()
}

/// Every call of a reply is one of a tool on offer, with arguments that fit the tool's schema.
pub proof fn replies_are_never_invalid(
    req: ChatRequest,
    user: Seq<char>,
    call_seq: u64,
    seed: u64,
)
    ensures
        match arc_reply(req, user, call_seq, seed).calls {
            Some(calls) => forall|i: int|
                0 <= i < calls.len() ==> is_valid_call(#[trigger] calls[i], shown(req).tools),
            None => true,
        },
{
    let w = shown(req);
    let d = stream(seed, user, call_seq);
    if w.turn.outcomes == 0 {
        let (plan, e) = arc_plan(w, user, seed, d);
        if let PlanView::Calls(planned) = plan {
            lemma_fitting(planned, w.tools);
            let fit = fitting(planned, w.tools);
            let made = made_calls(planned, w.tools, req.parallel_tool_calls);
            let calls = sent_calls(made, user, call_seq);
            assert forall|i: int| 0 <= i < calls.len() implies is_valid_call(
                #[trigger] calls[i],
                w.tools,
            ) by {
                assert(made[i] == fit[i]);
                let args = made[i].1;
                assert(calls[i].arguments == args.text());
                assert(w.tools.fit(calls[i].name, args));
            }
        }
    }
}

/// Replies can be repeated: requests that hold the same, under one identity and one seed, get the
/// same reply. Any other part of the request makes no difference.
pub proof fn same_requests_get_the_same_reply(
    req: ChatRequest,
    other: ChatRequest,
    user: Seq<char>,
    call_seq: u64,
    seed: u64,
)
    requires
        same_request(req, other),
    ensures
        arc_reply(req, user, call_seq, seed) == arc_reply(other, user, call_seq, seed),
{
    same_requests_show_the_same(req, other);
}

/// A turn in which a call has come back ends: the reply calls nothing.
pub proof fn acted_turns_end(req: ChatRequest, user: Seq<char>, call_seq: u64, seed: u64)
    requires
        shown(req).turn.outcomes > 0,
    ensures
        arc_reply(req, user, call_seq, seed).calls is None,
        arc_reply(req, user, call_seq, seed).finish == FinishReason::Stop,
{
}

/// A reply either says something and ends, or makes at least one call.
pub proof fn replies_act_or_end(req: ChatRequest, user: Seq<char>, call_seq: u64, seed: u64)
    ensures
        ({
            let r = arc_reply(req, user, call_seq, seed);
            match r.calls {
                Some(calls) => calls.len() > 0 && r.content is None && r.finish
                    == FinishReason::ToolCalls,
                None => r.content is Some && r.finish == FinishReason::Stop,
            }
        }),
{
}

/// At most one call is made where calls may not be parallel.
pub proof fn serial_replies_make_one_call(
    req: ChatRequest,
    user: Seq<char>,
    call_seq: u64,
    seed: u64,
)
    requires
        req.parallel_tool_calls == Some(false),
    ensures
        match arc_reply(req, user, call_seq, seed).calls {
            Some(calls) => calls.len() == 1,
            None => true,
        },
{
}

/// A team agent that has reached its quota, or whose older activity was dropped, completes its task
/// and does nothing else, wherever completing fits: degradation is a shortcut, never a block.
pub proof fn enough_work_completes(
    req: ChatRequest,
    agent: crate::agent::AgentId,
    specialty: Seq<char>,
    call_seq: u64,
    seed: u64,
)
    requires
        agent is Team,
        crate::agent::is_slug(specialty),
        shown(req).turn.outcomes == 0,
        shown(req).claimed is Some,
        enough(shown(req), quota_of(seed, agent.handle(), shown(req).claimed->0.id)),
        forall|result: JsonView| #[trigger]
            shown(req).tools.fit(
                "complete_task"@,
                JsonView::Object(seq![("result"@, result)]),
            ),
    ensures
        ({
            let user = (UserView::TeamAgent { agent, specialty }).text();
            match arc_reply(req, user, call_seq, seed).calls {
                Some(calls) => calls.len() == 1 && calls[0].name == "complete_task"@,
                None => false,
            }
        }),
{
    let w = shown(req);
    let user = (UserView::TeamAgent { agent, specialty }).text();
    crate::agent::user_reads_back(UserView::TeamAgent { agent, specialty });
    let d = stream(seed, user, call_seq);
    let (args, e) = result_of(d, w.claimed->0.title);
    let result = args->Object_0[0].1;
    assert(args == JsonView::Object(seq![("result"@, result)]));
    assert(w.tools.fit("complete_task"@, args));
    let call = ("complete_task"@, args);
    assert(arc_plan(w, user, seed, d) == (PlanView::Calls(seq![call]), e));
    lemma_fit_single(call, w.tools);
}

proof fn lemma_fit_single(call: PlannedCall, tools: ShownTools)
    requires
        tools.fit(call.0, call.1),
    ensures
        fitting(seq![call], tools) == seq![call],
{
    assert(seq![call].drop_last() =~= Seq::<PlannedCall>::empty());
    assert(fitting(seq![call].drop_last(), tools) =~= Seq::<PlannedCall>::empty());
    assert(fitting(seq![call], tools) =~= seq![call]);
}

/// A team agent without a task claims the open task of least number, wherever claiming fits.
pub proof fn idle_agents_claim_the_lowest_task(
    req: ChatRequest,
    agent: crate::agent::AgentId,
    specialty: Seq<char>,
    call_seq: u64,
    seed: u64,
)
    requires
        agent is Team,
        crate::agent::is_slug(specialty),
        shown(req).turn.outcomes == 0,
        shown(req).claimed is None,
        shown(req).board is Some,
        shown(req).board->0.lowest() is Some,
        shown(req).tools.fit(
            "claim_task"@,
            JsonView::Object(
                seq![("task"@, JsonView::number(shown(req).board->0.lowest()->0.id))],
            ),
        ),
    ensures
        ({
            let user = (UserView::TeamAgent { agent, specialty }).text();
            let args = JsonView::Object(
                seq![("task"@, JsonView::number(shown(req).board->0.lowest()->0.id))],
            );
            match arc_reply(req, user, call_seq, seed).calls {
                Some(calls) => calls.len() == 1 && calls[0].name == "claim_task"@
                    && calls[0].arguments == args.text(),
                None => false,
            }
        }),
{
    let w = shown(req);
    let user = (UserView::TeamAgent { agent, specialty }).text();
    crate::agent::user_reads_back(UserView::TeamAgent { agent, specialty });
    let d = stream(seed, user, call_seq);
    let args = JsonView::Object(seq![("task"@, JsonView::number(w.board->0.lowest()->0.id))]);
    let call = ("claim_task"@, args);
    assert(arc_plan(w, user, seed, d) == (PlanView::Calls(seq![call]), d));
    lemma_fit_single(call, w.tools);
}

/// A meta-agent that has used both tiers proposes nothing.
pub proof fn spent_meta_agents_yield(
    req: ChatRequest,
    agent: crate::agent::AgentId,
    call_seq: u64,
    seed: u64,
)
    requires
        agent is Meta,
        shown(req).outcomes == Some(
            DirectiveOutcomes { judgment_used: true, mechanical_used: true },
        ),
    ensures
        arc_reply(
            req,
            (UserView::MetaAgent { agent }).text(),
            call_seq,
            seed,
        ).calls is None,
{
    crate::agent::user_reads_back(UserView::MetaAgent { agent });
}

/// The orchestrator finishes a run whose tasks, as many as the budget, are all done or cancelled and
/// which has no waiting directive, wherever finishing fits.
pub proof fn finished_boards_finish_the_run(req: ChatRequest, call_seq: u64, seed: u64)
    requires
        shown(req).turn.outcomes == 0,
        shown(req).board is Some,
        shown(req).board->0.terminal(),
        task_count(shown(req)) > 0,
        task_count(shown(req)) >= budget_of(seed),
        pending_at(shown(req).directives, 0) is None,
        shown(req).tools.fit(
            "finish_run"@,
            JsonView::Object(seq![("report"@, JsonView::Text(report_of(shown(req))))]),
        ),
    ensures
        ({
            let args = JsonView::Object(
                seq![("report"@, JsonView::Text(report_of(shown(req))))],
            );
            match arc_reply(req, "orchestrator"@, call_seq, seed).calls {
                Some(calls) => calls.len() == 1 && calls[0].name == "finish_run"@
                    && calls[0].arguments == args.text(),
                None => false,
            }
        }),
{
    let w = shown(req);
    let user = "orchestrator"@;
    let d = stream(seed, user, call_seq);
    let args = JsonView::Object(seq![("report"@, JsonView::Text(report_of(w)))]);
    let call = ("finish_run"@, args);
    assert(arc_plan(w, user, seed, d) == (PlanView::Calls(seq![call]), d));
    lemma_fit_single(call, w.tools);
}

} // verus!
