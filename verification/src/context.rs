//! Prompts: what an agent sees in a turn, section by section, under token budgets.
//!
//! A policy lists sections in the order in which they are shown. Budgets are handed out in another
//! order, by priority, so that what matters most is served first and degrades last.
use crate::agent::{Role, SpecialtySlug};
use crate::board::{tag_str, tag_text, Task, TaskView};
use crate::event::{DegradedSection, DegradedView, Event, EventView};
use crate::knowledge::ScoredEntry;
use crate::text::{
    after_prefix, chars_of, dec, dec_text, join, joined, lines, no_lines, push_line, split_first,
    split_lines, split_once, strip_prefix, texts,
};
use vstd::prelude::*;

verus! {

/// A block of a prompt.
#[derive(Clone, Copy, PartialEq, Eq, Structural, Debug, Hash)]
pub enum SectionKind {
    /// The goal of the run.
    Goal,
    /// The board.
    BoardDigest,
    /// The task that the agent claims.
    ClaimedTask,
    /// What the agent did lately.
    RecentActivity,
    /// What the knowledge store has to offer.
    KnowledgeRetrievals,
    /// Messages.
    FreshMessages,
    /// Pending judgment directives.
    Directives,
    /// What became of directives.
    DirectiveOutcomes,
    /// Metrics.
    MetricsDigest,
    /// Events.
    RecentEvents,
}

impl SectionKind {
    /// The header.
    pub open spec fn title(self) -> Seq<char> {
        match self {
            SectionKind::Goal => "Goal"@,
            SectionKind::BoardDigest => "Board digest"@,
            SectionKind::ClaimedTask => "Claimed task"@,
            SectionKind::RecentActivity => "Recent activity"@,
            SectionKind::KnowledgeRetrievals => "Knowledge retrievals"@,
            SectionKind::FreshMessages => "Fresh messages"@,
            SectionKind::Directives => "Directives"@,
            SectionKind::DirectiveOutcomes => "Directive outcomes"@,
            SectionKind::MetricsDigest => "Metrics digest"@,
            SectionKind::RecentEvents => "Recent events"@,
        }
    }

    /// The name in degradation records.
    pub open spec fn name(self) -> Seq<char> {
        match self {
            SectionKind::Goal => "goal"@,
            SectionKind::BoardDigest => "board_digest"@,
            SectionKind::ClaimedTask => "claimed_task"@,
            SectionKind::RecentActivity => "recent_activity"@,
            SectionKind::KnowledgeRetrievals => "knowledge_retrievals"@,
            SectionKind::FreshMessages => "fresh_messages"@,
            SectionKind::Directives => "directives"@,
            SectionKind::DirectiveOutcomes => "directive_outcomes"@,
            SectionKind::MetricsDigest => "metrics_digest"@,
            SectionKind::RecentEvents => "recent_events"@,
        }
    }

    /// What an empty section shows.
    pub open spec fn blank(self) -> Seq<char> {
        match self {
            SectionKind::BoardDigest => "(empty)"@,
            SectionKind::DirectiveOutcomes => "(none issued)"@,
            _ => "(none)"@,
        }
    }

    /// The header.
    pub fn header(self) -> (s: &'static str)
        ensures
            s@ == self.title(),
    {
        match self {
            SectionKind::Goal => "Goal",
            SectionKind::BoardDigest => "Board digest",
            SectionKind::ClaimedTask => "Claimed task",
            SectionKind::RecentActivity => "Recent activity",
            SectionKind::KnowledgeRetrievals => "Knowledge retrievals",
            SectionKind::FreshMessages => "Fresh messages",
            SectionKind::Directives => "Directives",
            SectionKind::DirectiveOutcomes => "Directive outcomes",
            SectionKind::MetricsDigest => "Metrics digest",
            SectionKind::RecentEvents => "Recent events",
        }
    }

    /// The name in degradation records.
    pub fn label(self) -> (s: &'static str)
        ensures
            s@ == self.name(),
    {
        match self {
            SectionKind::Goal => "goal",
            SectionKind::BoardDigest => "board_digest",
            SectionKind::ClaimedTask => "claimed_task",
            SectionKind::RecentActivity => "recent_activity",
            SectionKind::KnowledgeRetrievals => "knowledge_retrievals",
            SectionKind::FreshMessages => "fresh_messages",
            SectionKind::Directives => "directives",
            SectionKind::DirectiveOutcomes => "directive_outcomes",
            SectionKind::MetricsDigest => "metrics_digest",
            SectionKind::RecentEvents => "recent_events",
        }
    }

    /// What an empty section shows.
    pub fn placeholder(self) -> (s: &'static str)
        ensures
            s@ == self.blank(),
    {
        match self {
            SectionKind::BoardDigest => "(empty)",
            SectionKind::DirectiveOutcomes => "(none issued)",
            _ => "(none)",
        }
    }
}

/// How a section sheds content under pressure.
#[derive(Clone, Copy, PartialEq, Eq, Structural, Debug)]
pub enum DropRule {
    /// Not at all.
    Never,
    /// Done and cancelled tasks first, from the end.
    TerminalTailFirst,
    /// The least similar hits first.
    LowestCosine,
    /// The oldest is shown first, and the rest stays queued; at least one is shown.
    OldestFirstCarryover,
    /// The oldest goes first; at least one stays.
    OldestDropped,
    /// The tail goes first; at least one line stays.
    TailTruncate,
}

/// A section's place in a policy.
#[derive(Clone, Copy, PartialEq, Eq, Structural, Debug)]
pub struct SectionSpec {
    /// What it shows.
    pub kind: SectionKind,
    /// Its token budget.
    pub budget: usize,
    /// Its priority; a lower number is served earlier.
    pub priority: u8,
    /// How it sheds content.
    pub drop_rule: DropRule,
}

/// A role's prompt policy.
#[derive(Debug)]
pub struct ContextPolicy {
    /// The sections in the order in which they are shown.
    pub sections: Vec<SectionSpec>,
    /// A budget for all sections together.
    pub pool: Option<usize>,
}

/// The orchestrator's sections.
pub open spec fn orchestrator_sections() -> Seq<SectionSpec> {
    seq![
        SectionSpec { kind: SectionKind::Goal, budget: 200, priority: 0, drop_rule: DropRule::Never },
        SectionSpec {
            kind: SectionKind::BoardDigest,
            budget: 800,
            priority: 2,
            drop_rule: DropRule::TerminalTailFirst,
        },
        SectionSpec {
            kind: SectionKind::KnowledgeRetrievals,
            budget: 600,
            priority: 4,
            drop_rule: DropRule::LowestCosine,
        },
        SectionSpec {
            kind: SectionKind::FreshMessages,
            budget: 800,
            priority: 3,
            drop_rule: DropRule::OldestFirstCarryover,
        },
        SectionSpec {
            kind: SectionKind::Directives,
            budget: 400,
            priority: 1,
            drop_rule: DropRule::Never,
        },
    ]
}

/// A team agent's sections.
pub open spec fn team_sections() -> Seq<SectionSpec> {
    seq![
        SectionSpec { kind: SectionKind::Goal, budget: 200, priority: 0, drop_rule: DropRule::Never },
        SectionSpec {
            kind: SectionKind::BoardDigest,
            budget: 800,
            priority: 3,
            drop_rule: DropRule::TerminalTailFirst,
        },
        SectionSpec {
            kind: SectionKind::ClaimedTask,
            budget: 100,
            priority: 1,
            drop_rule: DropRule::Never,
        },
        SectionSpec {
            kind: SectionKind::RecentActivity,
            budget: 400,
            priority: 2,
            drop_rule: DropRule::OldestDropped,
        },
        SectionSpec {
            kind: SectionKind::KnowledgeRetrievals,
            budget: 600,
            priority: 5,
            drop_rule: DropRule::LowestCosine,
        },
        SectionSpec {
            kind: SectionKind::FreshMessages,
            budget: 800,
            priority: 4,
            drop_rule: DropRule::OldestFirstCarryover,
        },
    ]
}

/// A meta-agent's sections.
pub open spec fn meta_sections() -> Seq<SectionSpec> {
    seq![
        SectionSpec { kind: SectionKind::Goal, budget: 200, priority: 0, drop_rule: DropRule::Never },
        SectionSpec {
            kind: SectionKind::MetricsDigest,
            budget: 800,
            priority: 2,
            drop_rule: DropRule::TailTruncate,
        },
        SectionSpec {
            kind: SectionKind::DirectiveOutcomes,
            budget: 400,
            priority: 1,
            drop_rule: DropRule::Never,
        },
        SectionSpec {
            kind: SectionKind::RecentEvents,
            budget: 400,
            priority: 3,
            drop_rule: DropRule::TailTruncate,
        },
    ]
}

/// The sections of a role.
pub open spec fn role_sections(role: Role) -> Seq<SectionSpec> {
    match role {
        Role::Orchestrator => orchestrator_sections(),
        Role::TeamAgent => team_sections(),
        Role::MetaAgent => meta_sections(),
    }
}

/// A section's place in a policy.
pub fn spec(kind: SectionKind, budget: usize, priority: u8, drop_rule: DropRule) -> (s: SectionSpec)
    ensures
        s == (SectionSpec { kind, budget, priority, drop_rule }),
{
    SectionSpec { kind, budget, priority, drop_rule }
}

impl ContextPolicy {
    /// The orchestrator's policy.
    pub fn orchestrator() -> (p: ContextPolicy)
        ensures
            p.sections@ == orchestrator_sections(),
            p.pool is None,
    {
        let mut sections: Vec<SectionSpec> = Vec::new();
        sections.push(spec(SectionKind::Goal, 200, 0, DropRule::Never));
        sections.push(spec(SectionKind::BoardDigest, 800, 2, DropRule::TerminalTailFirst));
        sections.push(spec(SectionKind::KnowledgeRetrievals, 600, 4, DropRule::LowestCosine));
        sections.push(spec(SectionKind::FreshMessages, 800, 3, DropRule::OldestFirstCarryover));
        sections.push(spec(SectionKind::Directives, 400, 1, DropRule::Never));
        assert(sections@ =~= orchestrator_sections());
        ContextPolicy { sections, pool: None }
    }

    /// A team agent's policy.
    pub fn team_agent() -> (p: ContextPolicy)
        ensures
            p.sections@ == team_sections(),
            p.pool is None,
    {
        let mut sections: Vec<SectionSpec> = Vec::new();
        sections.push(spec(SectionKind::Goal, 200, 0, DropRule::Never));
        sections.push(spec(SectionKind::BoardDigest, 800, 3, DropRule::TerminalTailFirst));
        sections.push(spec(SectionKind::ClaimedTask, 100, 1, DropRule::Never));
        sections.push(spec(SectionKind::RecentActivity, 400, 2, DropRule::OldestDropped));
        sections.push(spec(SectionKind::KnowledgeRetrievals, 600, 5, DropRule::LowestCosine));
        sections.push(spec(SectionKind::FreshMessages, 800, 4, DropRule::OldestFirstCarryover));
        assert(sections@ =~= team_sections());
        ContextPolicy { sections, pool: None }
    }

    /// A meta-agent's policy.
    pub fn meta_agent() -> (p: ContextPolicy)
        ensures
            p.sections@ == meta_sections(),
            p.pool is None,
    {
        let mut sections: Vec<SectionSpec> = Vec::new();
        sections.push(spec(SectionKind::Goal, 200, 0, DropRule::Never));
        sections.push(spec(SectionKind::MetricsDigest, 800, 2, DropRule::TailTruncate));
        sections.push(spec(SectionKind::DirectiveOutcomes, 400, 1, DropRule::Never));
        sections.push(spec(SectionKind::RecentEvents, 400, 3, DropRule::TailTruncate));
        assert(sections@ =~= meta_sections());
        ContextPolicy { sections, pool: None }
    }

    /// A role's policy with a budget for all sections together.
    pub fn for_role(role: Role, pool: Option<usize>) -> (p: ContextPolicy)
        ensures
            p.sections@ == role_sections(role),
            p.pool == pool,
    {
        let mut policy = match role {
            Role::Orchestrator => ContextPolicy::orchestrator(),
            Role::TeamAgent => ContextPolicy::team_agent(),
            Role::MetaAgent => ContextPolicy::meta_agent(),
        };
        policy.pool = pool;
        policy
    }
}

/// A team agent's specialty.
#[derive(PartialEq, Eq, Debug)]
pub struct SpecialtyProfile {
    /// The slug.
    pub slug: SpecialtySlug,
    /// What the specialist is.
    pub description: String,
    /// What the specialist does.
    pub focus: String,
}

/// A specialty in specifications.
pub struct ProfileView {
    /// The slug.
    pub slug: Seq<char>,
    /// What the specialist is.
    pub description: Seq<char>,
    /// What the specialist does.
    pub focus: Seq<char>,
}

impl View for SpecialtyProfile {
    type V = ProfileView;

    open spec fn view(&self) -> ProfileView {
        ProfileView { slug: self.slug@, description: self.description@, focus: self.focus@ }
    }
}

impl Clone for SpecialtyProfile {
    fn clone(&self) -> (r: SpecialtyProfile)
        ensures
            r == *self,
    {
        SpecialtyProfile {
            slug: self.slug.clone(),
            description: self.description.clone(),
            focus: self.focus.clone(),
        }
    }
}

/// What every agent is at first.
pub open spec fn generalist_profile() -> ProfileView {
    ProfileView {
        slug: "generalist"@,
        description: "A flexible generalist ready for any task."@,
        focus: "whatever the board needs"@,
    }
}

impl SpecialtyProfile {
    /// What every agent is at first.
    pub fn generalist() -> (p: SpecialtyProfile)
        ensures
            p@ == generalist_profile(),
    {
        SpecialtyProfile {
            slug: SpecialtySlug::generalist(),
            description: "A flexible generalist ready for any task.".to_owned(),
            focus: "whatever the board needs".to_owned(),
        }
    }
}

/// Counts the tokens of a text.
pub trait TokenCounter {
    /// The number of tokens.
    spec fn tokens(&self, text: Seq<char>) -> nat;

    /// Counts the tokens of a text.
    fn count(&self, text: &str) -> (n: usize)
        ensures
            n == self.tokens(text@),
    ;
}

/// Counts four characters as a token, rounded up.
#[derive(Clone, Copy, PartialEq, Eq, Structural, Debug)]
pub struct CharCountTokenizer;

impl TokenCounter for CharCountTokenizer {
    open spec fn tokens(&self, text: Seq<char>) -> nat {
        ((text.len() + 3) / 4) as nat
    }

    fn count(&self, text: &str) -> (n: usize) {
        let len: usize = chars_of(text).len();
        if len % 4 == 0 {
            len / 4
        } else {
            len / 4 + 1
        }
    }
}

/// Everything that a prompt may show.
#[derive(Debug)]
pub struct AssembleView {
    /// The goal.
    pub goal: String,
    /// Digest lines of tasks.
    pub board_lines: Vec<String>,
    /// The line on the health of the run.
    pub run_health: Option<String>,
    /// The line on the claimed task.
    pub claimed_line: Option<String>,
    /// What the agent did lately, oldest first.
    pub window_lines: Vec<String>,
    /// The queued messages, oldest first.
    pub queued_messages: Vec<String>,
    /// Search hits, the most similar first.
    pub retrievals: Vec<String>,
    /// Pending judgment directives.
    pub directive_lines: Vec<String>,
    /// What became of directives.
    pub outcome_lines: Vec<String>,
    /// The metrics.
    pub metrics_digest: Option<String>,
    /// Events, oldest first.
    pub recent_event_lines: Vec<String>,
}

/// Everything that a prompt may show, in specifications.
pub struct SceneView {
    /// The goal.
    pub goal: Seq<char>,
    /// Digest lines of tasks.
    pub board_lines: Seq<Seq<char>>,
    /// The line on the health of the run.
    pub run_health: Option<Seq<char>>,
    /// The line on the claimed task.
    pub claimed_line: Option<Seq<char>>,
    /// What the agent did lately, oldest first.
    pub window_lines: Seq<Seq<char>>,
    /// The queued messages, oldest first.
    pub queued_messages: Seq<Seq<char>>,
    /// Search hits, the most similar first.
    pub retrievals: Seq<Seq<char>>,
    /// Pending judgment directives.
    pub directive_lines: Seq<Seq<char>>,
    /// What became of directives.
    pub outcome_lines: Seq<Seq<char>>,
    /// The metrics.
    pub metrics_digest: Option<Seq<char>>,
    /// Events, oldest first.
    pub recent_event_lines: Seq<Seq<char>>,
}

impl View for AssembleView {
    type V = SceneView;

    open spec fn view(&self) -> SceneView {
        SceneView {
            goal: self.goal@,
            board_lines: texts(self.board_lines@),
            run_health: crate::event::text_view(self.run_health),
            claimed_line: crate::event::text_view(self.claimed_line),
            window_lines: texts(self.window_lines@),
            queued_messages: texts(self.queued_messages@),
            retrievals: texts(self.retrievals@),
            directive_lines: texts(self.directive_lines@),
            outcome_lines: texts(self.outcome_lines@),
            metrics_digest: crate::event::text_view(self.metrics_digest),
            recent_event_lines: texts(self.recent_event_lines@),
        }
    }
}

impl Default for AssembleView {
    fn default() -> (v: AssembleView)
        ensures
            v@ == (SceneView {
                goal: Seq::empty(),
                board_lines: Seq::empty(),
                run_health: None,
                claimed_line: None,
                window_lines: Seq::empty(),
                queued_messages: Seq::empty(),
                retrievals: Seq::empty(),
                directive_lines: Seq::empty(),
                outcome_lines: Seq::empty(),
                metrics_digest: None,
                recent_event_lines: Seq::empty(),
            }),
    {
        AssembleView {
            goal: String::new(),
            board_lines: no_lines(),
            run_health: None,
            claimed_line: None,
            window_lines: no_lines(),
            queued_messages: no_lines(),
            retrievals: no_lines(),
            directive_lines: no_lines(),
            outcome_lines: no_lines(),
            metrics_digest: None,
            recent_event_lines: no_lines(),
        }
    }
}

/// A finished prompt.
#[derive(Debug)]
pub struct AssembledPrompt {
    /// The role's fixed text.
    pub system: String,
    /// The sections.
    pub user: String,
    /// How many queued messages are shown.
    pub drained: usize,
    /// Sections that lost items.
    pub degraded: Vec<DegradedSection>,
}

/// The fixed text of a role.
pub open spec fn skeleton_text(role: Role, specialty: Option<ProfileView>) -> Seq<char> {
    match role {
        Role::Orchestrator => "You are the orchestrator of an offline agentic team. You decompose the goal into board tasks, form teams, steer via messages and directives, and alone end the run with finish_run."@,
        Role::TeamAgent => {
            let profile = match specialty {
                Some(p) => p,
                None => generalist_profile(),
            };
            "You are a team agent. Specialty: "@ + profile.slug + " — "@ + profile.description
                + " Focus: "@ + profile.focus
                + " Claim eligible work, do it over one or more turns, then complete_task."@
        },
        Role::MetaAgent => "You are a meta-agent. You observe metrics and improve the process through directives only."@,
    }
}

/// The fixed text of a role.
pub fn skeleton(role: Role, specialty: Option<&SpecialtyProfile>) -> (s: String)
    ensures
        s@ == skeleton_text(
            role,
            match specialty {
                Some(p) => Some(p@),
                None => None,
            },
        ),
{
    match role {
        Role::Orchestrator => "You are the orchestrator of an offline agentic team. You decompose the goal into board tasks, form teams, steer via messages and directives, and alone end the run with finish_run.".to_owned(),
        Role::TeamAgent => {
            let profile = match specialty {
                Some(p) => p.clone(),
                None => SpecialtyProfile::generalist(),
            };
            let mut s = "You are a team agent. Specialty: ".to_owned();
            s.push_str(profile.slug.as_str());
            s.push_str(" — ");
            s.push_str(profile.description.as_str());
            s.push_str(" Focus: ");
            s.push_str(profile.focus.as_str());
            s.push_str(" Claim eligible work, do it over one or more turns, then complete_task.");
            s
        },
        Role::MetaAgent => "You are a meta-agent. You observe metrics and improve the process through directives only.".to_owned(),
    }
}

// ---------------------------------------------------------------------------
// One section.
// ---------------------------------------------------------------------------

/// The tokens of a list of lines.
pub open spec fn cost<C: TokenCounter>(c: &C, list: Seq<Seq<char>>) -> nat
    decreases list.len(),
{
    if list.len() == 0 {
        0
    } else {
        cost(c, list.drop_last()) + c.tokens(list.last())
    }
}

/// A digest line of a task that is done or cancelled: the state stands in brackets behind the task's
/// number, and nothing else in the line matters.
pub open spec fn shows_terminal(line: Seq<char>) -> bool {
    match after_prefix(line, "- task "@) {
        Some(s) => match split_once(s, " "@) {
            Some((_, rest)) => after_prefix(rest, "[Done]"@) is Some || after_prefix(
                rest,
                "[Cancelled]"@,
            ) is Some,
            None => false,
        },
        None => false,
    }
}

/// The last of the first `n` lines that shows a terminal task, or else the last line.
pub open spec fn victim(list: Seq<Seq<char>>, n: int) -> int
    decreases n,
{
    if n <= 0 {
        list.len() - 1
    } else if shows_terminal(list[n - 1]) {
        n - 1
    } else {
        victim(list, n - 1)
    }
}

/// Digest lines cut to a budget, and how many were cut.
pub open spec fn shed_board<C: TokenCounter>(
    c: &C,
    list: Seq<Seq<char>>,
    health: nat,
    allowed: nat,
) -> (Seq<Seq<char>>, nat)
    decreases list.len(),
    via shed_board_decreases::<C>
{
    if list.len() == 0 || cost(c, list) + health <= allowed {
        (list, 0)
    } else {
        let (rest, n) = shed_board(c, list.remove(victim(list, list.len() as int)), health, allowed);
        (rest, n + 1)
    }
}

proof fn lemma_victim(list: Seq<Seq<char>>, n: int)
    requires
        0 <= n <= list.len(),
        list.len() > 0,
    ensures
        0 <= victim(list, n) < list.len(),
    decreases n,
{
    if n > 0 {
        lemma_victim(list, n - 1);
    }
}

#[via_fn]
proof fn shed_board_decreases<C: TokenCounter>(
    c: &C,
    list: Seq<Seq<char>>,
    health: nat,
    allowed: nat,
) {
    if list.len() > 0 {
        lemma_victim(list, list.len() as int);
    }
}

/// Lines without the oldest ones that a budget does not hold, at least one line if there is any, and
/// how many went.
pub open spec fn shed_oldest<C: TokenCounter>(c: &C, list: Seq<Seq<char>>, allowed: nat) -> (
    Seq<Seq<char>>,
    nat,
)
    decreases list.len(),
{
    if list.len() <= 1 || cost(c, list) <= allowed {
        (list, 0)
    } else {
        let (rest, n) = shed_oldest(c, list.remove(0), allowed);
        (rest, n + 1)
    }
}

/// Lines without the last ones that a budget does not hold, at least `keep` lines if there are as
/// many, and how many went.
pub open spec fn shed_newest<C: TokenCounter>(
    c: &C,
    list: Seq<Seq<char>>,
    keep: nat,
    allowed: nat,
) -> (Seq<Seq<char>>, nat)
    decreases list.len(),
{
    if list.len() == 0 || list.len() <= keep || cost(c, list) <= allowed {
        (list, 0)
    } else {
        let (rest, n) = shed_newest(c, list.drop_last(), keep, allowed);
        (rest, n + 1)
    }
}

/// How many queued messages fit, counting on from `i` with `used` tokens spent: the first in any
/// case, then as long as the budget holds.
pub open spec fn fitting<C: TokenCounter>(
    c: &C,
    queue: Seq<Seq<char>>,
    i: int,
    used: nat,
    allowed: nat,
) -> int
    decreases queue.len() - i,
{
    if i < 0 || i >= queue.len() {
        i
    } else if i == 0 || used + c.tokens(queue[i]) <= allowed {
        fitting(c, queue, i + 1, used + c.tokens(queue[i]), allowed)
    } else {
        i
    }
}

/// Lines behind a degradation marker if any were dropped, and the placeholder for none.
pub open spec fn marked(list: Seq<Seq<char>>, dropped: nat, kind: SectionKind) -> Seq<Seq<char>> {
    if dropped > 0 {
        seq!["(degraded: "@ + dec(dropped) + " dropped)"@] + list
    } else {
        or_blank(list, kind)
    }
}

/// Lines, or the placeholder for none.
pub open spec fn or_blank(list: Seq<Seq<char>>, kind: SectionKind) -> Seq<Seq<char>> {
    if list.len() == 0 {
        seq![kind.blank()]
    } else {
        list
    }
}

/// A section as it will be shown.
pub struct SectionView {
    /// What it shows.
    pub kind: SectionKind,
    /// The lines.
    pub lines: Seq<Seq<char>>,
    /// How many items were dropped.
    pub dropped: nat,
    /// How many queued messages are shown, if it shows messages.
    pub drained: Option<nat>,
}

/// A section under a budget.
pub open spec fn section<C: TokenCounter>(
    c: &C,
    kind: SectionKind,
    allowed: nat,
    view: SceneView,
) -> SectionView {
    match kind {
        SectionKind::Goal => SectionView {
            kind,
            lines: seq![view.goal],
            dropped: 0,
            drained: None,
        },
        SectionKind::BoardDigest => {
            let health = match view.run_health {
                Some(h) => c.tokens(h),
                None => 0,
            };
            let (kept, dropped) = shed_board(c, view.board_lines, health, allowed);
            SectionView {
                kind,
                lines: match view.run_health {
                    Some(h) => or_blank(kept, kind).push(h),
                    None => or_blank(kept, kind),
                },
                dropped,
                drained: None,
            }
        },
        SectionKind::ClaimedTask => SectionView {
            kind,
            lines: match view.claimed_line {
                Some(l) => seq![l],
                None => seq![kind.blank()],
            },
            dropped: 0,
            drained: None,
        },
        SectionKind::RecentActivity => {
            let (kept, dropped) = shed_oldest(c, view.window_lines, allowed);
            SectionView { kind, lines: marked(kept, dropped, kind), dropped, drained: None }
        },
        SectionKind::KnowledgeRetrievals => {
            let (kept, dropped) = shed_newest(c, view.retrievals, 0, allowed);
            SectionView { kind, lines: or_blank(kept, kind), dropped, drained: None }
        },
        SectionKind::FreshMessages => {
            let n = fitting(c, view.queued_messages, 0, 0, allowed);
            let withheld = (view.queued_messages.len() - n) as nat;
            SectionView {
                kind,
                lines: marked(view.queued_messages.take(n), withheld, kind),
                dropped: withheld,
                drained: Some(n as nat),
            }
        },
        SectionKind::Directives => SectionView {
            kind,
            lines: or_blank(view.directive_lines, kind),
            dropped: 0,
            drained: None,
        },
        SectionKind::DirectiveOutcomes => SectionView {
            kind,
            lines: or_blank(view.outcome_lines, kind),
            dropped: 0,
            drained: None,
        },
        SectionKind::MetricsDigest => {
            let digest = match view.metrics_digest {
                Some(d) => lines(d),
                None => Seq::empty(),
            };
            let (kept, dropped) = shed_newest(c, digest, 1, allowed);
            SectionView { kind, lines: or_blank(kept, kind), dropped, drained: None }
        },
        SectionKind::RecentEvents => {
            let (kept, _) = shed_oldest(c, view.recent_event_lines, allowed);
            SectionView { kind, lines: or_blank(kept, kind), dropped: 0, drained: None }
        },
    }
}

/// Counts the tokens of a list of lines.
fn count_lines<C: TokenCounter>(list: &Vec<String>, counter: &C) -> (n: u128)
    ensures
        n == cost(counter, texts(list@)),
        n <= list@.len() * usize::MAX,
{
    let mut n: u128 = 0;
    let mut i: usize = 0;
    let ghost all = texts(list@);
    assert(all.take(0) =~= Seq::<Seq<char>>::empty());
    while i < list.len()
        invariant
            0 <= i <= list.len(),
            all == texts(list@),
            n == cost(counter, all.take(i as int)),
            n <= i * usize::MAX,
        decreases list.len() - i,
    {
        assert(all.take(i + 1).drop_last() =~= all.take(i as int));
        let t: usize = counter.count(list[i].as_str());
        assert(n + t <= (i + 1) * usize::MAX) by (nonlinear_arith)
            requires
                n <= i * usize::MAX,
                t <= usize::MAX,
        ;
        assert((i + 1) * usize::MAX <= u128::MAX) by (nonlinear_arith)
            requires
                i + 1 <= usize::MAX,
                usize::MAX <= 0xffff_ffff_ffff_ffff,
        ;
        n = n + t as u128;
        i = i + 1;
    }
    assert(all.take(i as int) =~= all);
    n
}

/// A list of lines, copied.
pub fn copy_lines(list: &Vec<String>) -> (r: Vec<String>)
    ensures
        texts(r@) == texts(list@),
{
    let mut r = no_lines();
    let mut i: usize = 0;
    let ghost all = texts(list@);
    assert(all.take(0) =~= Seq::<Seq<char>>::empty());
    while i < list.len()
        invariant
            0 <= i <= list.len(),
            all == texts(list@),
            texts(r@) == all.take(i as int),
        decreases list.len() - i,
    {
        push_line(&mut r, list[i].clone());
        assert(all.take(i + 1) =~= all.take(i as int).push(all[i as int]));
        i = i + 1;
    }
    assert(all.take(i as int) =~= all);
    r
}

/// Whether a digest line shows a task that is done or cancelled.
fn is_terminal_line(line: &str) -> (b: bool)
    ensures
        b == shows_terminal(line@),
{
    let v = chars_of(line);
    match strip_prefix(v.as_slice(), "- task ") {
        Some(s) => match split_first(s, " ") {
            Some((_, rest)) => strip_prefix(rest, "[Done]").is_some() || strip_prefix(
                rest,
                "[Cancelled]",
            ).is_some(),
            None => false,
        },
        None => false,
    }
}

/// The line that goes next.
fn find_victim(list: &Vec<String>) -> (i: usize)
    requires
        list@.len() > 0,
    ensures
        i == victim(texts(list@), list@.len() as int),
        i < list@.len(),
{
    let mut n: usize = list.len();
    while n > 0
        invariant
            0 <= n <= list.len(),
            list.len() > 0,
            victim(texts(list@), list@.len() as int) == victim(texts(list@), n as int),
        decreases n,
    {
        if is_terminal_line(list[n - 1].as_str()) {
            return n - 1;
        }
        n = n - 1;
    }
    list.len() - 1
}

/// Takes a line out.
fn remove_line(list: &mut Vec<String>, i: usize)
    requires
        i < old(list)@.len(),
    ensures
        texts(final(list)@) == texts(old(list)@).remove(i as int),
        final(list)@.len() == old(list)@.len() - 1,
{
    list.remove(i);
    assert(texts(list@) =~= texts(old(list)@).remove(i as int));
}

/// Cuts digest lines to a budget; gives how many were cut.
fn cut_board<C: TokenCounter>(
    list: &mut Vec<String>,
    health: usize,
    allowed: usize,
    counter: &C,
) -> (n: usize)
    ensures
        (texts(final(list)@), n as nat) == shed_board(
            counter,
            texts(old(list)@),
            health as nat,
            allowed as nat,
        ),
{
    let mut n: usize = 0;
    let total: usize = list.len();
    while list.len() > 0
        invariant
            n + list@.len() == total,
            shed_board(counter, texts(old(list)@), health as nat, allowed as nat) == ({
                let (rest, m) = shed_board(
                    counter,
                    texts(list@),
                    health as nat,
                    allowed as nat,
                );
                (rest, (m + n) as nat)
            }),
        decreases list.len(),
    {
        let c = count_lines(list, counter);
        assert(c + health <= u128::MAX) by (nonlinear_arith)
            requires
                c <= list@.len() * usize::MAX,
                list@.len() <= usize::MAX,
                usize::MAX <= 0xffff_ffff_ffff_ffff,
                health <= usize::MAX,
        ;
        if c + health as u128 <= allowed as u128 {
            return n;
        }
        let i = find_victim(list);
        remove_line(list, i);
        n = n + 1;
    }
    n
}

/// Drops the oldest lines that a budget does not hold; gives how many went.
fn cut_oldest<C: TokenCounter>(list: &mut Vec<String>, allowed: usize, counter: &C) -> (n: usize)
    ensures
        (texts(final(list)@), n as nat) == shed_oldest(
            counter,
            texts(old(list)@),
            allowed as nat,
        ),
{
    let mut n: usize = 0;
    let total: usize = list.len();
    while list.len() > 1
        invariant
            n + list@.len() == total,
            shed_oldest(counter, texts(old(list)@), allowed as nat) == ({
                let (rest, m) = shed_oldest(counter, texts(list@), allowed as nat);
                (rest, (m + n) as nat)
            }),
        decreases list.len(),
    {
        if count_lines(list, counter) <= allowed as u128 {
            return n;
        }
        remove_line(list, 0);
        n = n + 1;
    }
    n
}

/// Drops the last lines that a budget does not hold; gives how many went.
fn cut_newest<C: TokenCounter>(
    list: &mut Vec<String>,
    keep: usize,
    allowed: usize,
    counter: &C,
) -> (n: usize)
    ensures
        (texts(final(list)@), n as nat) == shed_newest(
            counter,
            texts(old(list)@),
            keep as nat,
            allowed as nat,
        ),
{
    let mut n: usize = 0;
    let total: usize = list.len();
    while list.len() > 0 && list.len() > keep
        invariant
            n + list@.len() == total,
            shed_newest(counter, texts(old(list)@), keep as nat, allowed as nat) == ({
                let (rest, m) = shed_newest(counter, texts(list@), keep as nat, allowed as nat);
                (rest, (m + n) as nat)
            }),
        decreases list.len(),
    {
        if count_lines(list, counter) <= allowed as u128 {
            return n;
        }
        let last: usize = list.len() - 1;
        assert(texts(list@).remove(last as int) =~= texts(list@).drop_last());
        remove_line(list, last);
        n = n + 1;
    }
    n
}

/// Counts how many queued messages fit.
fn count_fitting<C: TokenCounter>(queue: &Vec<String>, allowed: usize, counter: &C) -> (n: usize)
    ensures
        n == fitting(counter, texts(queue@), 0, 0, allowed as nat),
        n <= queue@.len(),
{
    let mut used: u128 = 0;
    let mut i: usize = 0;
    while i < queue.len()
        invariant
            0 <= i <= queue.len(),
            used <= i * usize::MAX,
            fitting(counter, texts(queue@), 0, 0, allowed as nat) == fitting(
                counter,
                texts(queue@),
                i as int,
                used as nat,
                allowed as nat,
            ),
        decreases queue.len() - i,
    {
        let t: usize = counter.count(queue[i].as_str());
        assert(used + t <= (i + 1) * usize::MAX) by (nonlinear_arith)
            requires
                used <= i * usize::MAX,
                t <= usize::MAX,
        ;
        assert((i + 1) * usize::MAX <= u128::MAX) by (nonlinear_arith)
            requires
                i + 1 <= usize::MAX,
                usize::MAX <= 0xffff_ffff_ffff_ffff,
        ;
        let sum: u128 = used + t as u128;
        if i == 0 || sum <= allowed as u128 {
            used = sum;
            i = i + 1;
        } else {
            return i;
        }
    }
    i
}

/// Puts the degradation marker before lines if any were dropped, or the placeholder in place of
/// none.
pub fn with_marker_or_placeholder(
    list: Vec<String>,
    dropped: usize,
    kind: SectionKind,
) -> (r: Vec<String>)
    ensures
        texts(r@) == marked(texts(list@), dropped as nat, kind),
{
    if dropped > 0 {
        let mut marker = "(degraded: ".to_owned();
        marker.push_str(dec_text(dropped as u64).as_str());
        marker.push_str(" dropped)");
        let ghost m = marker@;
        let mut r = list;
        r.insert(0, marker);
        assert(texts(r@) =~= seq![m] + texts(list@));
        r
    } else {
        placeholder_if_empty(list, kind)
    }
}

/// Puts the placeholder in place of no lines.
fn placeholder_if_empty(list: Vec<String>, kind: SectionKind) -> (r: Vec<String>)
    ensures
        texts(r@) == or_blank(texts(list@), kind),
{
    if list.len() == 0 {
        single(kind.placeholder())
    } else {
        list
    }
}

/// One line.
fn single(line: &str) -> (r: Vec<String>)
    ensures
        texts(r@) == seq![line@],
{
    let mut r: Vec<String> = Vec::new();
    r.push(line.to_owned());
    assert(texts(r@) =~= seq![line@]);
    r
}

/// A section as it will be shown.
#[derive(Debug)]
struct RenderedSection {
    kind: SectionKind,
    body: String,
    used: u128,
    dropped: usize,
    drained: Option<usize>,
}

impl RenderedSection {
    /// The section is the given one.
    spec fn shows<C: TokenCounter>(self, c: &C, v: SectionView) -> bool {
        &&& self.kind == v.kind
        &&& self.body@ == joined(v.lines, "\n"@)
        &&& self.used == cost(c, v.lines)
        &&& self.dropped == v.dropped
        &&& match self.drained {
            Some(n) => v.drained == Some(n as nat),
            None => v.drained is None,
        }
    }
}

/// Renders a section under a budget.
fn render_section<C: TokenCounter>(
    kind: SectionKind,
    allowed: usize,
    view: &AssembleView,
    counter: &C,
) -> (r: RenderedSection)
    ensures
        r.shows(counter, section(counter, kind, allowed as nat, view@)),
{
    let mut dropped: usize = 0;
    let mut drained: Option<usize> = None;
    let list: Vec<String> = match kind {
        SectionKind::Goal => single(view.goal.as_str()),
        SectionKind::BoardDigest => {
            let mut list = copy_lines(&view.board_lines);
            let health: usize = match &view.run_health {
                Some(h) => counter.count(h.as_str()),
                None => 0,
            };
            dropped = cut_board(&mut list, health, allowed, counter);
            let mut shown = placeholder_if_empty(list, kind);
            if let Some(h) = &view.run_health {
                push_line(&mut shown, h.clone());
            }
            shown
        },
        SectionKind::ClaimedTask => match &view.claimed_line {
            Some(l) => single(l.as_str()),
            None => single(kind.placeholder()),
        },
        SectionKind::RecentActivity => {
            let mut list = copy_lines(&view.window_lines);
            dropped = cut_oldest(&mut list, allowed, counter);
            with_marker_or_placeholder(list, dropped, kind)
        },
        SectionKind::KnowledgeRetrievals => {
            let mut list = copy_lines(&view.retrievals);
            dropped = cut_newest(&mut list, 0, allowed, counter);
            placeholder_if_empty(list, kind)
        },
        SectionKind::FreshMessages => {
            let n = count_fitting(&view.queued_messages, allowed, counter);
            let mut taken = copy_lines(&view.queued_messages);
            assert(taken@.len() == texts(taken@).len());
            assert(texts(view.queued_messages@).len() == view.queued_messages@.len());
            let ghost all = texts(taken@);
            taken.truncate(n);
            assert(texts(taken@) =~= all.take(n as int));
            dropped = view.queued_messages.len() - n;
            drained = Some(n);
            with_marker_or_placeholder(taken, dropped, kind)
        },
        SectionKind::Directives => placeholder_if_empty(copy_lines(&view.directive_lines), kind),
        SectionKind::DirectiveOutcomes => placeholder_if_empty(
            copy_lines(&view.outcome_lines),
            kind,
        ),
        SectionKind::MetricsDigest => {
            let mut list = match &view.metrics_digest {
                Some(d) => split_lines(d.as_str()),
                None => no_lines(),
            };
            dropped = cut_newest(&mut list, 1, allowed, counter);
            placeholder_if_empty(list, kind)
        },
        SectionKind::RecentEvents => {
            let mut list = copy_lines(&view.recent_event_lines);
            let _ = cut_oldest(&mut list, allowed, counter);
            placeholder_if_empty(list, kind)
        },
    };
    let used = count_lines(&list, counter);
    RenderedSection { kind, body: join(&list, "\n"), used, dropped, drained }
}

// ---------------------------------------------------------------------------
// The prompt.
// ---------------------------------------------------------------------------

/// The sections served so far, and what is left of the pool.
pub struct Served {
    /// A section for each place in the policy, once served.
    pub sections: Seq<Option<SectionView>>,
    /// What is left of the pool.
    pub pool: Option<nat>,
}

/// One section served at place `i`.
pub open spec fn serve<C: TokenCounter>(
    c: &C,
    specs: Seq<SectionSpec>,
    view: SceneView,
    before: Served,
    i: int,
) -> Served {
    let budget = specs[i].budget as nat;
    let allowed = match before.pool {
        Some(left) => if left < budget {
            left
        } else {
            budget
        },
        None => budget,
    };
    let shown = section(c, specs[i].kind, allowed, view);
    let used = cost(c, shown.lines);
    Served {
        sections: before.sections.update(i, Some(shown)),
        pool: match before.pool {
            Some(left) => Some(
                if left >= used {
                    (left - used) as nat
                } else {
                    0
                },
            ),
            None => None,
        },
    }
}

/// The sections served before place `i` of priority `p` comes up: in order of priority, and within
/// one priority in the order of the policy.
pub open spec fn served<C: TokenCounter>(
    c: &C,
    specs: Seq<SectionSpec>,
    view: SceneView,
    pool: Option<nat>,
    p: int,
    i: int,
) -> Served
    decreases p, i,
{
    if i > 0 {
        let before = served(c, specs, view, pool, p, i - 1);
        if specs[i - 1].priority == p {
            serve(c, specs, view, before, i - 1)
        } else {
            before
        }
    } else if p > 0 {
        served(c, specs, view, pool, p - 1, specs.len() as int)
    } else {
        Served { sections: Seq::new(specs.len(), |k: int| None), pool }
    }
}

/// All sections of a policy.
pub open spec fn all_served<C: TokenCounter>(
    c: &C,
    specs: Seq<SectionSpec>,
    view: SceneView,
    pool: Option<nat>,
) -> Seq<Option<SectionView>> {
    served(c, specs, view, pool, 255, specs.len() as int).sections
}

/// The blocks of a prompt.
pub open spec fn blocks(sections: Seq<Option<SectionView>>) -> Seq<Seq<char>>
    decreases sections.len(),
{
    if sections.len() == 0 {
        Seq::empty()
    } else {
        let before = blocks(sections.drop_last());
        match sections.last() {
            Some(s) => before.push("## "@ + s.kind.title() + "\n"@ + joined(s.lines, "\n"@)),
            None => before,
        }
    }
}

/// How many queued messages are shown.
pub open spec fn drained_in(sections: Seq<Option<SectionView>>) -> nat
    decreases sections.len(),
{
    if sections.len() == 0 {
        0
    } else {
        match sections.last() {
            Some(SectionView { drained: Some(n), .. }) => n,
            _ => drained_in(sections.drop_last()),
        }
    }
}

/// A number cut to 32 bits.
pub open spec fn low32(n: nat) -> u32 {
    (n % 0x1_0000_0000) as u32
}

/// The budget of the last section of a kind, zero if there is none.
pub open spec fn budget_of(specs: Seq<SectionSpec>, kind: SectionKind) -> u32
    decreases specs.len(),
{
    if specs.len() == 0 {
        0
    } else if specs.last().kind == kind {
        low32(specs.last().budget as nat)
    } else {
        budget_of(specs.drop_last(), kind)
    }
}

/// A record for each section that lost items.
pub open spec fn degraded_in<C: TokenCounter>(
    c: &C,
    specs: Seq<SectionSpec>,
    sections: Seq<Option<SectionView>>,
) -> Seq<DegradedView>
    decreases sections.len(),
{
    if sections.len() == 0 {
        Seq::empty()
    } else {
        let before = degraded_in(c, specs, sections.drop_last());
        match sections.last() {
            Some(s) => if s.dropped > 0 {
                before.push(
                    DegradedView {
                        kind: s.kind.name(),
                        budget: budget_of(specs, s.kind),
                        used: low32(cost(c, s.lines)),
                        dropped_items: low32(s.dropped),
                    },
                )
            } else {
                before
            },
            None => before,
        }
    }
}

/// Finds the budget of the last section of a kind.
fn find_budget(specs: &Vec<SectionSpec>, kind: SectionKind) -> (b: u32)
    ensures
        b == budget_of(specs@, kind),
{
    let mut i: usize = specs.len();
    assert(specs@.take(i as int) =~= specs@);
    while i > 0
        invariant
            0 <= i <= specs.len(),
            budget_of(specs@, kind) == budget_of(specs@.take(i as int), kind),
        decreases i,
    {
        assert(specs@.take(i as int).drop_last() =~= specs@.take(i - 1));
        if specs[i - 1].kind == kind {
            return ((specs[i - 1].budget as u128) % 0x1_0000_0000) as u32;
        }
        i = i - 1;
    }
    0
}

/// The sections served so far, as specified.
spec fn holds<C: TokenCounter>(
    c: &C,
    rendered: Seq<Option<RenderedSection>>,
    views: Seq<Option<SectionView>>,
) -> bool {
    &&& rendered.len() == views.len()
    &&& forall|k: int|
        0 <= k < rendered.len() ==> (#[trigger] rendered[k] is Some <==> views[k] is Some) && (
        rendered[k] is Some ==> rendered[k]->0.shows(c, views[k]->0))
}

/// Serves all sections in order of priority.
fn serve_all<C: TokenCounter>(policy: &ContextPolicy, view: &AssembleView, counter: &C) -> (r: Vec<
    Option<RenderedSection>,
>)
    ensures
        holds(
            counter,
            r@,
            all_served(
                counter,
                policy.sections@,
                view@,
                match policy.pool {
                    Some(n) => Some(n as nat),
                    None => None,
                },
            ),
        ),
{
    let ghost pool = match policy.pool {
        Some(n) => Some(n as nat),
        None => None,
    };
    let mut rendered: Vec<Option<RenderedSection>> = Vec::new();
    let len: usize = policy.sections.len();
    while rendered.len() < len
        invariant
            rendered.len() <= len,
            forall|k: int| 0 <= k < rendered.len() ==> (#[trigger] rendered@[k]) is None,
        decreases len - rendered.len(),
    {
        rendered.push(None);
    }
    let mut left: Option<usize> = policy.pool;
    let mut p: u16 = 0;
    let ghost mut state = served(counter, policy.sections@, view@, pool, 0, 0);
    while p < 256
        invariant
            0 <= p <= 256,
            len == policy.sections@.len(),
            pool == (match policy.pool {
                Some(n) => Some(n as nat),
                None => None,
            }),
            state == (if p == 0 {
                served(counter, policy.sections@, view@, pool, 0, 0)
            } else {
                served(counter, policy.sections@, view@, pool, p - 1, len as int)
            }),
            holds(counter, rendered@, state.sections),
            state.sections.len() == len,
            state.pool == (match left {
                Some(n) => Some(n as nat),
                None => None,
            }),
        decreases 256 - p,
    {
        let mut i: usize = 0;
        proof {
            state = served(counter, policy.sections@, view@, pool, p as int, 0);
        }
        while i < len
            invariant
                0 <= i <= len,
                0 <= p < 256,
                len == policy.sections@.len(),
                state == served(counter, policy.sections@, view@, pool, p as int, i as int),
                holds(counter, rendered@, state.sections),
                state.sections.len() == len,
                state.pool == (match left {
                    Some(n) => Some(n as nat),
                    None => None,
                }),
            decreases len - i,
        {
            if policy.sections[i].priority as u16 == p {
                let budget = policy.sections[i].budget;
                let allowed: usize = match left {
                    Some(n) => if n < budget {
                        n
                    } else {
                        budget
                    },
                    None => budget,
                };
                let shown = render_section(policy.sections[i].kind, allowed, view, counter);
                left = match left {
                    Some(n) => Some(
                        if n as u128 >= shown.used {
                            n - shown.used as usize
                        } else {
                            0
                        },
                    ),
                    None => None,
                };
                rendered.set(i, Some(shown));
            }
            proof {
                state =
                served(counter, policy.sections@, view@, pool, p as int, i + 1);
            }
            i = i + 1;
        }
        p = p + 1;
    }
    rendered
}

/// Assembles a prompt.
pub fn assemble<C: TokenCounter>(
    policy: &ContextPolicy,
    role: Role,
    specialty: Option<&SpecialtyProfile>,
    view: &AssembleView,
    counter: &C,
) -> (r: AssembledPrompt)
    ensures
        ({
            let sections = all_served(
                counter,
                policy.sections@,
                view@,
                match policy.pool {
                    Some(n) => Some(n as nat),
                    None => None,
                },
            );
            &&& r.system@ == skeleton_text(
                role,
                match specialty {
                    Some(p) => Some(p@),
                    None => None,
                },
            )
            &&& r.user@ == joined(blocks(sections), "\n\n"@)
            &&& r.drained == drained_in(sections)
            &&& crate::event::degraded_views(r.degraded@) == degraded_in(
                counter,
                policy.sections@,
                sections,
            )
        }),
{
    let rendered = serve_all(policy, view, counter);
    let ghost sections = all_served(
        counter,
        policy.sections@,
        view@,
        match policy.pool {
            Some(n) => Some(n as nat),
            None => None,
        },
    );
    let mut parts = no_lines();
    let mut degraded: Vec<DegradedSection> = Vec::new();
    let mut drained: usize = 0;
    let mut i: usize = 0;
    assert(sections.take(0) =~= Seq::<Option<SectionView>>::empty());
    assert(crate::event::degraded_views(degraded@) =~= Seq::<DegradedView>::empty());
    while i < rendered.len()
        invariant
            0 <= i <= rendered.len(),
            holds(counter, rendered@, sections),
            texts(parts@) == blocks(sections.take(i as int)),
            drained == drained_in(sections.take(i as int)),
            crate::event::degraded_views(degraded@) == degraded_in(
                counter,
                policy.sections@,
                sections.take(i as int),
            ),
        decreases rendered.len() - i,
    {
        assert(sections.take(i + 1).drop_last() =~= sections.take(i as int));
        assert(sections.take(i + 1).last() == sections[i as int]);
        if let Some(shown) = &rendered[i] {
            let mut part = "## ".to_owned();
            part.push_str(shown.kind.header());
            part.push_str("\n");
            part.push_str(shown.body.as_str());
            push_line(&mut parts, part);
            if let Some(n) = shown.drained {
                drained = n;
            }
            if shown.dropped > 0 {
                let record = DegradedSection {
                    kind: shown.kind.label().to_owned(),
                    budget: find_budget(&policy.sections, shown.kind),
                    used: (shown.used % 0x1_0000_0000) as u32,
                    dropped_items: ((shown.dropped as u128) % 0x1_0000_0000) as u32,
                };
                let ghost before = degraded@;
                let ghost added = record@;
                degraded.push(record);
                assert(crate::event::degraded_views(degraded@) =~= crate::event::degraded_views(
                    before,
                ).push(added));
            }
        }
        i = i + 1;
    }
    assert(sections.take(i as int) =~= sections);
    AssembledPrompt {
        system: skeleton(role, specialty),
        user: join(&parts, "\n\n"),
        drained,
        degraded,
    }
}

// ---------------------------------------------------------------------------
// Lines.
// ---------------------------------------------------------------------------

impl TaskView {
    /// `task <id> — "<title>" (team <tag>)`
    pub open spec fn claim_line(self) -> Seq<char> {
        "task "@ + dec(self.id.0 as nat) + " — \""@ + self.title + "\" (team "@ + tag_text(
            self.team,
        ) + ")"@
    }
}

/// The line on a claimed task.
pub fn claimed_task_line(task: &Task) -> (s: String)
    ensures
        s@ == task@.claim_line(),
{
    let mut s = "task ".to_owned();
    s.push_str(dec_text(task.id.0).as_str());
    s.push_str(" — \"");
    s.push_str(task.title.as_str());
    s.push_str("\" (team ");
    s.push_str(tag_str(&task.team));
    s.push_str(")");
    s
}

impl ScoredEntry {
    /// `- entry <id> (<kind> by <author>, cos <score>): "<text>"`
    pub open spec fn line(self) -> Seq<char> {
        "- entry "@ + dec(self.entry.id.0 as nat) + " ("@ + self.entry.kind.name() + " by "@
            + self.entry.author.handle() + ", cos "@ + self.score@ + "): \""@ + self.entry.text@
            + "\""@
    }
}

/// The line on a search hit.
pub fn retrieval_line(hit: &ScoredEntry) -> (s: String)
    ensures
        s@ == hit.line(),
{
    let mut s = "- entry ".to_owned();
    s.push_str(dec_text(hit.entry.id.0).as_str());
    s.push_str(" (");
    s.push_str(hit.entry.kind.as_str());
    s.push_str(" by ");
    s.push_str(hit.entry.author.as_str().as_str());
    s.push_str(", cos ");
    s.push_str(hit.score.as_str());
    s.push_str("): \"");
    s.push_str(hit.entry.text.as_str());
    s.push_str("\"");
    s
}

impl EventView {
    /// `- event <id> <kind> (<source>)`
    pub open spec fn line(self) -> Seq<char> {
        "- event "@ + dec(self.id.0 as nat) + " "@ + self.kind.name() + " ("@ + self.source.text()
            + ")"@
    }
}

/// The line on an event.
pub fn recent_event_line(event: &Event) -> (s: String)
    ensures
        s@ == event@.line(),
{
    let mut s = "- event ".to_owned();
    s.push_str(dec_text(event.id.0).as_str());
    s.push_str(" ");
    s.push_str(event.kind.as_str());
    s.push_str(" (");
    s.push_str(event.source.as_str().as_str());
    s.push_str(")");
    s
}

/// `- [turn <n>] <verb>{<gist>} -> <outcome>`
pub open spec fn window_text(
    turn: u64,
    verb: Seq<char>,
    gist: Seq<char>,
    outcome_word: Seq<char>,
) -> Seq<char> {
    "- [turn "@ + dec(turn as nat) + "] "@ + verb + "{"@ + gist + "} -> "@ + outcome_word
}

/// The line on something that an agent did.
pub fn window_line(turn: u64, verb: &str, gist: &str, outcome_word: &str) -> (s: String)
    ensures
        s@ == window_text(turn, verb@, gist@, outcome_word@),
{
    let mut s = "- [turn ".to_owned();
    s.push_str(dec_text(turn).as_str());
    s.push_str("] ");
    s.push_str(verb);
    s.push_str("{");
    s.push_str(gist);
    s.push_str("} -> ");
    s.push_str(outcome_word);
    s
}

// ---------------------------------------------------------------------------
// Laws.
// ---------------------------------------------------------------------------

proof fn lemma_fitting<C: TokenCounter>(
    c: &C,
    queue: Seq<Seq<char>>,
    i: int,
    used: nat,
    allowed: nat,
)
    requires
        0 <= i <= queue.len(),
    ensures
        i <= fitting(c, queue, i, used, allowed) <= queue.len(),
    decreases queue.len() - i,
{
    if i < queue.len() && (i == 0 || used + c.tokens(queue[i]) <= allowed) {
        lemma_fitting(c, queue, i + 1, used + c.tokens(queue[i]), allowed);
    }
}

/// Whatever the budget, the oldest queued message is shown, and every queued message is either shown
/// or counted as withheld.
pub proof fn oldest_message_is_shown<C: TokenCounter>(c: &C, allowed: nat, view: SceneView)
    ensures
        ({
            let s = section(c, SectionKind::FreshMessages, allowed, view);
            &&& s.drained is Some
            &&& s.drained->0 + s.dropped == view.queued_messages.len()
            &&& view.queued_messages.len() > 0 ==> s.drained->0 >= 1
            &&& s.dropped == 0 && view.queued_messages.len() > 0 ==> s.lines
                == view.queued_messages
        }),
{
    let queue = view.queued_messages;
    lemma_fitting(c, queue, 0, 0, allowed);
    if queue.len() > 0 {
        lemma_fitting(c, queue, 1, c.tokens(queue[0]), allowed);
    }
    let n = fitting(c, queue, 0, 0, allowed);
    if n == queue.len() {
        assert(queue.take(n) =~= queue);
    }
}

/// The goal, the claimed task, the directives and their outcomes are shown whole under any budget.
pub proof fn never_dropped<C: TokenCounter>(c: &C, kind: SectionKind, allowed: nat, view: SceneView)
    requires
        kind is Goal || kind is ClaimedTask || kind is Directives || kind is DirectiveOutcomes,
    ensures
        section(c, kind, allowed, view).dropped == 0,
        section(c, kind, allowed, view).lines == section(c, kind, 0, view).lines,
        kind is Goal ==> section(c, kind, allowed, view).lines == seq![view.goal],
        kind is Directives && view.directive_lines.len() > 0 ==> section(
            c,
            kind,
            allowed,
            view,
        ).lines == view.directive_lines,
        kind is DirectiveOutcomes && view.outcome_lines.len() > 0 ==> section(
            c,
            kind,
            allowed,
            view,
        ).lines == view.outcome_lines,
{
}

/// Of an agent's recent activity the newest line stays, and what is dropped is counted.
pub proof fn newest_activity_stays<C: TokenCounter>(c: &C, list: Seq<Seq<char>>, allowed: nat)
    ensures
        ({
            let (kept, dropped) = shed_oldest(c, list, allowed);
            &&& kept.len() + dropped == list.len()
            &&& kept == list.skip(dropped as int)
            &&& list.len() > 0 ==> kept.len() > 0 && kept.last() == list.last()
        }),
    decreases list.len(),
{
    if list.len() <= 1 || cost(c, list) <= allowed {
        assert(list.skip(0) =~= list);
    } else {
        newest_activity_stays(c, list.remove(0), allowed);
        let (kept, dropped) = shed_oldest(c, list.remove(0), allowed);
        assert(list.remove(0).skip(dropped as int) =~= list.skip((dropped + 1) as int));
    }
}

/// With room enough, the board digest keeps every line and records no loss.
pub proof fn roomy_board_is_whole<C: TokenCounter>(c: &C, allowed: nat, view: SceneView)
    requires
        cost(c, view.board_lines) + (match view.run_health {
            Some(h) => c.tokens(h),
            None => 0,
        }) <= allowed,
    ensures
        section(c, SectionKind::BoardDigest, allowed, view).dropped == 0,
        view.board_lines.len() > 0 && view.run_health is None ==> section(
            c,
            SectionKind::BoardDigest,
            allowed,
            view,
        ).lines == view.board_lines,
{
}

} // verus!
