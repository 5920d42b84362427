//! Run-scoped identifiers.
//!
//! Events, tasks, messages, knowledge entries and directives are numbered by five independent
//! counters. Events count from zero, the others from one.
use crate::text::{debug_quote, debug_quoted, dec, dec_text, no_space, spaceless};
use vstd::prelude::*;
use vstd::std_specs::convert::FromSpecImpl;

verus! {

/// A run's unique instance id: the 128 bits of a UUID.
pub type RunId = u128;

/// The position of an event in the run's log, which orders everything that happens in a run.
#[derive(Clone, Copy, PartialEq, Eq, PartialOrd, Ord, Hash, Structural, Debug)]
pub struct EventId(pub u64);

/// A task's number on the board.
#[derive(Clone, Copy, PartialEq, Eq, PartialOrd, Ord, Hash, Structural, Debug)]
pub struct TaskId(pub u64);

/// A message's number in the order of acceptance.
#[derive(Clone, Copy, PartialEq, Eq, PartialOrd, Ord, Hash, Structural, Debug)]
pub struct MessageId(pub u64);

/// A knowledge entry's number in the run's store.
#[derive(Clone, Copy, PartialEq, Eq, PartialOrd, Ord, Hash, Structural, Debug)]
pub struct KnowledgeEntryId(pub u64);

/// A directive's number.
#[derive(Clone, Copy, PartialEq, Eq, PartialOrd, Ord, Hash, Structural, Debug)]
pub struct DirectiveId(pub u64);

impl EventId {
    /// The id with the given number.
    pub fn new(value: u64) -> (id: EventId)
        ensures
            id.0 == value,
    {
        EventId(value)
    }

    /// The id's number.
    pub fn get(self) -> (value: u64)
        ensures
            value == self.0,
    {
        self.0
    }

    /// The number in decimal.
    pub fn text(self) -> (s: String)
        ensures
            s@ == dec(self.0 as nat),
    {
        dec_text(self.0)
    }
}

impl TaskId {
    /// The id with the given number.
    pub fn new(value: u64) -> (id: TaskId)
        ensures
            id.0 == value,
    {
        TaskId(value)
    }

    /// The id's number.
    pub fn get(self) -> (value: u64)
        ensures
            value == self.0,
    {
        self.0
    }

    /// The number in decimal.
    pub fn text(self) -> (s: String)
        ensures
            s@ == dec(self.0 as nat),
    {
        dec_text(self.0)
    }
}

impl MessageId {
    /// The id with the given number.
    pub fn new(value: u64) -> (id: MessageId)
        ensures
            id.0 == value,
    {
        MessageId(value)
    }

    /// The id's number.
    pub fn get(self) -> (value: u64)
        ensures
            value == self.0,
    {
        self.0
    }

    /// The number in decimal.
    pub fn text(self) -> (s: String)
        ensures
            s@ == dec(self.0 as nat),
    {
        dec_text(self.0)
    }
}

impl KnowledgeEntryId {
    /// The id with the given number.
    pub fn new(value: u64) -> (id: KnowledgeEntryId)
        ensures
            id.0 == value,
    {
        KnowledgeEntryId(value)
    }

    /// The id's number.
    pub fn get(self) -> (value: u64)
        ensures
            value == self.0,
    {
        self.0
    }

    /// The number in decimal.
    pub fn text(self) -> (s: String)
        ensures
            s@ == dec(self.0 as nat),
    {
        dec_text(self.0)
    }
}

impl DirectiveId {
    /// The id with the given number.
    pub fn new(value: u64) -> (id: DirectiveId)
        ensures
            id.0 == value,
    {
        DirectiveId(value)
    }

    /// The id's number.
    pub fn get(self) -> (value: u64)
        ensures
            value == self.0,
    {
        self.0
    }

    /// The number in decimal.
    pub fn text(self) -> (s: String)
        ensures
            s@ == dec(self.0 as nat),
    {
        dec_text(self.0)
    }
}

impl From<u64> for EventId {
    fn from(value: u64) -> EventId {
        EventId(value)
    }
}

impl FromSpecImpl<u64> for EventId {
    open spec fn obeys_from_spec() -> bool {
        true
    }

    open spec fn from_spec(value: u64) -> EventId {
        EventId(value)
    }
}

impl From<EventId> for u64 {
    fn from(id: EventId) -> u64 {
        id.0
    }
}

impl FromSpecImpl<EventId> for u64 {
    open spec fn obeys_from_spec() -> bool {
        true
    }

    open spec fn from_spec(id: EventId) -> u64 {
        id.0
    }
}

impl From<u64> for TaskId {
    fn from(value: u64) -> TaskId {
        TaskId(value)
    }
}

impl FromSpecImpl<u64> for TaskId {
    open spec fn obeys_from_spec() -> bool {
        true
    }

    open spec fn from_spec(value: u64) -> TaskId {
        TaskId(value)
    }
}

impl From<TaskId> for u64 {
    fn from(id: TaskId) -> u64 {
        id.0
    }
}

impl FromSpecImpl<TaskId> for u64 {
    open spec fn obeys_from_spec() -> bool {
        true
    }

    open spec fn from_spec(id: TaskId) -> u64 {
        id.0
    }
}

impl From<u64> for MessageId {
    fn from(value: u64) -> MessageId {
        MessageId(value)
    }
}

impl FromSpecImpl<u64> for MessageId {
    open spec fn obeys_from_spec() -> bool {
        true
    }

    open spec fn from_spec(value: u64) -> MessageId {
        MessageId(value)
    }
}

impl From<MessageId> for u64 {
    fn from(id: MessageId) -> u64 {
        id.0
    }
}

impl FromSpecImpl<MessageId> for u64 {
    open spec fn obeys_from_spec() -> bool {
        true
    }

    open spec fn from_spec(id: MessageId) -> u64 {
        id.0
    }
}

impl From<u64> for KnowledgeEntryId {
    fn from(value: u64) -> KnowledgeEntryId {
        KnowledgeEntryId(value)
    }
}

impl FromSpecImpl<u64> for KnowledgeEntryId {
    open spec fn obeys_from_spec() -> bool {
        true
    }

    open spec fn from_spec(value: u64) -> KnowledgeEntryId {
        KnowledgeEntryId(value)
    }
}

impl From<KnowledgeEntryId> for u64 {
    fn from(id: KnowledgeEntryId) -> u64 {
        id.0
    }
}

impl FromSpecImpl<KnowledgeEntryId> for u64 {
    open spec fn obeys_from_spec() -> bool {
        true
    }

    open spec fn from_spec(id: KnowledgeEntryId) -> u64 {
        id.0
    }
}

impl From<u64> for DirectiveId {
    fn from(value: u64) -> DirectiveId {
        DirectiveId(value)
    }
}

impl FromSpecImpl<u64> for DirectiveId {
    open spec fn obeys_from_spec() -> bool {
        true
    }

    open spec fn from_spec(value: u64) -> DirectiveId {
        DirectiveId(value)
    }
}

impl From<DirectiveId> for u64 {
    fn from(id: DirectiveId) -> u64 {
        id.0
    }
}

impl FromSpecImpl<DirectiveId> for u64 {
    open spec fn obeys_from_spec() -> bool {
        true
    }

    open spec fn from_spec(id: DirectiveId) -> u64 {
        id.0
    }
}

/// Why a text is no team tag.
#[derive(PartialEq, Eq, Debug)]
pub enum TeamIdError {
    /// The text is empty or holds white space.
    Invalid(String),
}

impl TeamIdError {
    /// The error in words.
    pub fn message(&self) -> (s: String)
        ensures
            s@ == "invalid team id "@ + debug_quote(self->0@)
                + ": must be non-empty with no whitespace"@,
    {
        match self {
            TeamIdError::Invalid(tag) => {
                let mut s = "invalid team id ".to_owned();
                s.push_str(debug_quoted(tag.as_str()).as_str());
                s.push_str(": must be non-empty with no whitespace");
                s
            },
        }
    }
}

/// A text that may name a team: not empty, and without white space, so that it stands in a digest
/// line as one word.
pub open spec fn is_tag(s: Seq<char>) -> bool {
    s.len() > 0 && no_space(s)
}

/// A team's tag.
#[derive(PartialEq, Eq, PartialOrd, Ord, Hash, Debug)]
pub struct TeamId {
    tag: String,
}

impl View for TeamId {
    type V = Seq<char>;

    closed spec fn view(&self) -> Seq<char> {
        self.tag@
    }
}

impl Clone for TeamId {
    fn clone(&self) -> (r: TeamId)
        ensures
            r == *self,
    {
        TeamId { tag: self.tag.clone() }
    }
}

impl TeamId {
    /// The tag is one that `parse` accepts.
    pub open spec fn valid(self) -> bool {
        is_tag(self@)
    }

    /// Reads a team tag: any text that is not empty and holds no white space.
    pub fn parse(tag: &str) -> (r: Result<TeamId, TeamIdError>)
        ensures
            match r {
                Ok(id) => id@ == tag@ && id.valid(),
                Err(TeamIdError::Invalid(t)) => t@ == tag@ && !is_tag(tag@),
            },
    {
        if tag.is_empty() || !spaceless(tag) {
            Err(TeamIdError::Invalid(tag.to_owned()))
        } else {
            Ok(TeamId { tag: tag.to_owned() })
        }
    }

    /// The tag as text.
    pub fn as_str(&self) -> (s: &str)
        ensures
            s@ == self@,
    {
        self.tag.as_str()
    }

    /// Whether two tags are the same.
    pub fn same(&self, other: &TeamId) -> (b: bool)
        ensures
            b == (self@ == other@),
    {
        self.tag == other.tag
    }
}

// ---------------------------------------------------------------------------
// Run ids as text.
// ---------------------------------------------------------------------------

/// A hexadecimal digit in lower case.
pub open spec fn hex_digit(n: nat) -> char {
    if n < 10 {
        ('0' as nat + n) as char
    } else {
        ('a' as nat + (n - 10)) as char
    }
}

/// The `k` low hexadecimal digits of a number.
pub open spec fn hex(n: nat, k: nat) -> Seq<char>
    decreases k,
{
    if k == 0 {
        Seq::empty()
    } else {
        hex(n / 16, (k - 1) as nat).push(hex_digit(n % 16))
    }
}

/// A run id as text: 32 hexadecimal digits in groups of 8, 4, 4, 4 and 12.
pub open spec fn hyphenated(id: RunId) -> Seq<char> {
    let n = id as nat;
    hex(n / 0x1_0000_0000_0000_0000_0000_0000, 8) + "-"@ + hex(
        n / 0x1_0000_0000_0000_0000_0000,
        4,
    ) + "-"@ + hex(n / 0x1_0000_0000_0000_0000, 4) + "-"@ + hex(n / 0x1_0000_0000_0000, 4) + "-"@
        + hex(n, 12)
}

/// The run id that a text denotes in one of the forms that `Uuid::parse_str` reads.
pub uninterp spec fn uuid_of(text: Seq<char>) -> Option<RunId>;

/// `Uuid::parse_str` and `Uuid::as_u128`: which texts are ids, and of what number, depends on the
/// text alone.
#[verifier::external_body]
fn parse_uuid(text: &str) -> (r: Option<RunId>)
    ensures
        r == uuid_of(text@),
{
    uuid::Uuid::parse_str(text).ok().map(|u| u.as_u128())
}

/// `Uuid::from_u128` and its `Display`: the hyphenated form in lower case, which `Uuid::parse_str`
/// reads back.
#[verifier::external_body]
fn write_uuid(id: RunId) -> (s: String)
    ensures
        s@ == hyphenated(id),
        uuid_of(s@) == Some(id),
{
    uuid::Uuid::from_u128(id).to_string()
}

/// Reads a run id.
pub fn parse_run_id(text: &str) -> (r: Option<RunId>)
    ensures
        r == uuid_of(text@),
{
    parse_uuid(text)
}

/// Writes a run id, such that it reads back.
pub fn run_id_text(id: RunId) -> (s: String)
    ensures
        s@ == hyphenated(id),
        uuid_of(s@) == Some(id),
{
    write_uuid(id)
}

} // verus!
