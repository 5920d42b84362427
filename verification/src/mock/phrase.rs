//! The wording of replies: lists of phrases, one of which is drawn.
use crate::mock::seed::Draws;
use vstd::prelude::*;

verus! {

/// A list of phrases.
#[derive(Clone, Copy, PartialEq, Eq, Structural, Debug)]
pub enum Phrase {
    /// After a call of the turn has come back.
    AfterAction,
    /// While others work.
    Waiting,
    /// With nothing to do.
    Idle,
    /// From a meta-agent with nothing to propose.
    Observing,
    /// Why a directive is declined.
    Decline,
    /// What a note says.
    Note,
    /// What a status message says.
    Status,
    /// Specialties to propose.
    Specialty,
    /// What is to be done in a task.
    TaskVerb,
    /// What comes of a task.
    TaskNoun,
    /// How a task ended.
    Completion,
    /// Advice to the team.
    Advice,
    /// To a client that is no agent.
    Plain,
}

impl Phrase {
    /// The phrases.
    pub open spec fn options(self) -> Seq<Seq<char>> {
        match self {
            Phrase::AfterAction => seq![
                "Action recorded for this turn; yielding."@,
                "Done for this turn; handing back to the scheduler."@,
                "That covers this turn's move. Yielding."@,
                "Result noted; nothing further this turn."@,
            ],
            Phrase::Waiting => seq![
                "Tasks are in flight; standing by for the team."@,
                "The board is moving; waiting on claimed work."@,
                "Nothing to steer right now; letting the team work."@,
                "Holding — open work is progressing."@,
            ],
            Phrase::Idle => seq![
                "No eligible work visible; yielding."@,
                "Nothing claimable right now; standing by."@,
                "Idle — waiting for the board to change."@,
                "No plausible next action; yielding."@,
            ],
            Phrase::Observing => seq![
                "Both directive tiers exercised; observing the process."@,
                "No directive warranted; the process looks healthy."@,
                "Observing — metrics do not call for an intervention."@,
            ],
            Phrase::Decline => seq![
                "Current allocation is already serving the goal."@,
                "Proposal duplicates steering already underway."@,
                "Not worth the churn this late in the run."@,
            ],
            Phrase::Note => seq![
                "key facts captured for the next pass."@,
                "constraints and references recorded."@,
                "findings noted for whoever picks this up."@,
                "progress checkpoint written down."@,
            ],
            Phrase::Status => seq![
                "in progress, on track."@,
                "drafting now; will complete shortly."@,
                "gathering what I need, no blockers."@,
            ],
            Phrase::Specialty => seq![
                "doc-curator"@,
                "test-writer"@,
                "researcher"@,
                "integrator"@,
                "editor"@,
            ],
            Phrase::TaskVerb => seq![
                "Draft"@,
                "Outline"@,
                "Research"@,
                "Review"@,
                "Summarize"@,
            ],
            Phrase::TaskNoun => seq!["section"@, "overview"@, "notes"@, "plan"@],
            Phrase::Completion => seq![
                "done and recorded"@,
                "complete; see the knowledge store"@,
                "finished with notes attached"@,
            ],
            Phrase::Advice => seq![
                "Prioritize what unblocks the rest of"@,
                "Keep results small and shareable for"@,
                "Post findings as you go on"@,
            ],
            Phrase::Plain => seq![
                "Acknowledged."@,
                "Understood; proceeding."@,
                "Noted — nothing further needed."@,
            ],
        }
    }

    fn all(self) -> (v: Vec<&'static str>)
        ensures
            v@.len() == self.options().len(),
            v@.len() > 0,
            forall|i: int| 0 <= i < v@.len() ==> (#[trigger] v@[i])@ == self.options()[i],
    {
        match self {
            Phrase::AfterAction => vec![
                "Action recorded for this turn; yielding.",
                "Done for this turn; handing back to the scheduler.",
                "That covers this turn's move. Yielding.",
                "Result noted; nothing further this turn.",
            ],
            Phrase::Waiting => vec![
                "Tasks are in flight; standing by for the team.",
                "The board is moving; waiting on claimed work.",
                "Nothing to steer right now; letting the team work.",
                "Holding — open work is progressing.",
            ],
            Phrase::Idle => vec![
                "No eligible work visible; yielding.",
                "Nothing claimable right now; standing by.",
                "Idle — waiting for the board to change.",
                "No plausible next action; yielding.",
            ],
            Phrase::Observing => vec![
                "Both directive tiers exercised; observing the process.",
                "No directive warranted; the process looks healthy.",
                "Observing — metrics do not call for an intervention.",
            ],
            Phrase::Decline => vec![
                "Current allocation is already serving the goal.",
                "Proposal duplicates steering already underway.",
                "Not worth the churn this late in the run.",
            ],
            Phrase::Note => vec![
                "key facts captured for the next pass.",
                "constraints and references recorded.",
                "findings noted for whoever picks this up.",
                "progress checkpoint written down.",
            ],
            Phrase::Status => vec![
                "in progress, on track.",
                "drafting now; will complete shortly.",
                "gathering what I need, no blockers.",
            ],
            Phrase::Specialty => vec![
                "doc-curator",
                "test-writer",
                "researcher",
                "integrator",
                "editor",
            ],
            Phrase::TaskVerb => vec!["Draft", "Outline", "Research", "Review", "Summarize"],
            Phrase::TaskNoun => vec!["section", "overview", "notes", "plan"],
            Phrase::Completion => vec![
                "done and recorded",
                "complete; see the knowledge store",
                "finished with notes attached",
            ],
            Phrase::Advice => vec![
                "Prioritize what unblocks the rest of",
                "Keep results small and shareable for",
                "Post findings as you go on",
            ],
            Phrase::Plain => vec![
                "Acknowledged.",
                "Understood; proceeding.",
                "Noted — nothing further needed.",
            ],
        }
    }
}

/// The phrase that is drawn, and the stream after it.
pub open spec fn picked(d: Draws, phrase: Phrase) -> (Seq<char>, Draws) {
    let (i, e) = d.index(phrase.options().len() as usize);
    (phrase.options()[i as int], e)
}

/// No phrase is empty.
pub proof fn lemma_options(phrase: Phrase)
    ensures
        forall|i: int|
            0 <= i < phrase.options().len() ==> (#[trigger] phrase.options()[i]).len() > 0,
{
    reveal_strlit("Acknowledged.");
    reveal_strlit("Action recorded for this turn; yielding.");
    reveal_strlit("Both directive tiers exercised; observing the process.");
    reveal_strlit("Current allocation is already serving the goal.");
    reveal_strlit("Done for this turn; handing back to the scheduler.");
    reveal_strlit("Draft");
    reveal_strlit("Holding — open work is progressing.");
    reveal_strlit("Idle — waiting for the board to change.");
    reveal_strlit("Keep results small and shareable for");
    reveal_strlit("No directive warranted; the process looks healthy.");
    reveal_strlit("No eligible work visible; yielding.");
    reveal_strlit("No plausible next action; yielding.");
    reveal_strlit("Not worth the churn this late in the run.");
    reveal_strlit("Noted — nothing further needed.");
    reveal_strlit("Nothing claimable right now; standing by.");
    reveal_strlit("Nothing to steer right now; letting the team work.");
    reveal_strlit("Observing — metrics do not call for an intervention.");
    reveal_strlit("Outline");
    reveal_strlit("Post findings as you go on");
    reveal_strlit("Prioritize what unblocks the rest of");
    reveal_strlit("Proposal duplicates steering already underway.");
    reveal_strlit("Research");
    reveal_strlit("Result noted; nothing further this turn.");
    reveal_strlit("Review");
    reveal_strlit("Summarize");
    reveal_strlit("Tasks are in flight; standing by for the team.");
    reveal_strlit("That covers this turn's move. Yielding.");
    reveal_strlit("The board is moving; waiting on claimed work.");
    reveal_strlit("Understood; proceeding.");
    reveal_strlit("complete; see the knowledge store");
    reveal_strlit("constraints and references recorded.");
    reveal_strlit("doc-curator");
    reveal_strlit("done and recorded");
    reveal_strlit("drafting now; will complete shortly.");
    reveal_strlit("editor");
    reveal_strlit("findings noted for whoever picks this up.");
    reveal_strlit("finished with notes attached");
    reveal_strlit("gathering what I need, no blockers.");
    reveal_strlit("in progress, on track.");
    reveal_strlit("integrator");
    reveal_strlit("key facts captured for the next pass.");
    reveal_strlit("notes");
    reveal_strlit("overview");
    reveal_strlit("plan");
    reveal_strlit("progress checkpoint written down.");
    reveal_strlit("researcher");
    reveal_strlit("section");
    reveal_strlit("test-writer");
}

/// Draws a phrase.
pub fn pick(d: &mut Draws, phrase: Phrase) -> (r: &'static str)
    ensures
        (r@, *final(d)) == picked(*old(d), phrase),
        phrase.options().contains(r@),
{
    let all = phrase.all();
    let i: usize = d.random_index(all.len());
    assert(all@[i as int]@ == phrase.options()[i as int]);
    all[i]
}

} // verus!
