//! Messages and mailboxes.
//!
//! A message is accepted once, stored, and its id queued for each recipient. A mailbox is drained
//! oldest first, as far as the reader's budget goes; what is left stays queued. Nothing is dropped.
use crate::agent::AgentId;
use crate::ids::{KnowledgeEntryId, MessageId, TeamId};
use crate::text::{dec, dec_text};
use vstd::prelude::*;

verus! {

/// Whom a message is for.
#[derive(PartialEq, Eq, Debug)]
pub enum Address {
    /// One agent.
    Direct {
        /// The agent.
        to: AgentId,
    },
    /// The members of a team when the message is accepted.
    Team {
        /// The team.
        team: TeamId,
    },
    /// The orchestrator and all team agents.
    Broadcast,
}

impl Clone for Address {
    fn clone(&self) -> (r: Address)
        ensures
            r == *self,
    {
        match self {
            Address::Direct { to } => Address::Direct { to: *to },
            Address::Team { team } => Address::Team { team: team.clone() },
            Address::Broadcast => Address::Broadcast,
        }
    }
}

/// Whom a message is for, in specifications.
pub enum AddressView {
    /// One agent.
    Direct { to: AgentId },
    /// The members of a team.
    Team { team: Seq<char> },
    /// The orchestrator and all team agents.
    Broadcast,
}

impl View for Address {
    type V = AddressView;

    open spec fn view(&self) -> AddressView {
        match self {
            Address::Direct { to } => AddressView::Direct { to: *to },
            Address::Team { team } => AddressView::Team { team: team@ },
            Address::Broadcast => AddressView::Broadcast,
        }
    }
}

impl AddressView {
    /// The scope as message lines show it.
    pub open spec fn label(self) -> Seq<char> {
        match self {
            AddressView::Direct { .. } => "direct"@,
            AddressView::Team { team } => "team:"@ + team,
            AddressView::Broadcast => "broadcast"@,
        }
    }
}

impl Address {
    /// The scope as message lines show it.
    pub fn scope_label(&self) -> (s: String)
        ensures
            s@ == self@.label(),
    {
        match self {
            Address::Direct { .. } => "direct".to_owned(),
            Address::Team { team } => {
                let mut s = "team:".to_owned();
                s.push_str(team.as_str());
                s
            },
            Address::Broadcast => "broadcast".to_owned(),
        }
    }
}

/// A message between agents.
#[derive(PartialEq, Eq, Debug)]
pub struct Message {
    /// Its number.
    pub id: MessageId,
    /// Who sent it.
    pub sender: AgentId,
    /// Whom it is for.
    pub address: Address,
    /// What it says.
    pub body: String,
    /// The knowledge entry that holds the body.
    pub knowledge_ref: KnowledgeEntryId,
}

/// A message in specifications.
pub struct MessageView {
    /// Its number.
    pub id: MessageId,
    /// Who sent it.
    pub sender: AgentId,
    /// Whom it is for.
    pub address: AddressView,
    /// What it says.
    pub body: Seq<char>,
    /// The knowledge entry that holds the body.
    pub knowledge_ref: KnowledgeEntryId,
}

impl View for Message {
    type V = MessageView;

    open spec fn view(&self) -> MessageView {
        MessageView {
            id: self.id,
            sender: self.sender,
            address: self.address@,
            body: self.body@,
            knowledge_ref: self.knowledge_ref,
        }
    }
}

impl MessageView {
    /// `- msg <id> from <sender> (<scope>): "<body>"`
    pub open spec fn line(self) -> Seq<char> {
        "- msg "@ + dec(self.id.0 as nat) + " from "@ + self.sender.handle() + " ("@
            + self.address.label() + "): \""@ + self.body + "\""@
    }
}

impl Message {
    /// The message's line.
    pub fn fresh_line(&self) -> (s: String)
        ensures
            s@ == self@.line(),
    {
        let mut s = "- msg ".to_owned();
        s.push_str(dec_text(self.id.0).as_str());
        s.push_str(" from ");
        s.push_str(self.sender.as_str().as_str());
        s.push_str(" (");
        s.push_str(self.address.scope_label().as_str());
        s.push_str("): \"");
        s.push_str(self.body.as_str());
        s.push_str("\"");
        s
    }
}

/// An agent's queue.
type Queue = (AgentId, Vec<MessageId>);

/// The first position from `i` on that holds the agent's queue.
spec fn queue_at(queues: Seq<Queue>, agent: AgentId, i: int) -> Option<int>
    decreases queues.len() - i,
{
    if i < 0 || i >= queues.len() {
        None
    } else if queues[i].0 == agent {
        Some(i)
    } else {
        queue_at(queues, agent, i + 1)
    }
}

proof fn lemma_queue_at(queues: Seq<Queue>, agent: AgentId, i: int)
    requires
        i >= 0,
    ensures
        match queue_at(queues, agent, i) {
            Some(k) => i <= k < queues.len() && queues[k].0 == agent && forall|j: int|
                i <= j < k ==> queues[j].0 != agent,
            None => forall|j: int| i <= j < queues.len() ==> queues[j].0 != agent,
        },
    decreases queues.len() - i,
{
    if i < queues.len() {
        lemma_queue_at(queues, agent, i + 1);
    }
}

/// A queue found at a position where the agent stands and nowhere before.
proof fn lemma_queue_is(queues: Seq<Queue>, agent: AgentId, i: int, k: int)
    requires
        0 <= i <= k < queues.len(),
        queues[k].0 == agent,
        forall|j: int| i <= j < k ==> queues[j].0 != agent,
    ensures
        queue_at(queues, agent, i) == Some(k),
    decreases k - i,
{
    if i < k {
        lemma_queue_is(queues, agent, i + 1, k);
    }
}

/// How many ids the queues hold together.
spec fn sum(queues: Seq<Queue>) -> nat
    decreases queues.len(),
{
    if queues.len() == 0 {
        0
    } else {
        sum(queues.drop_last()) + queues.last().1@.len()
    }
}

proof fn lemma_sum_update(queues: Seq<Queue>, i: int, q: Queue)
    requires
        0 <= i < queues.len(),
    ensures
        sum(queues.update(i, q)) + queues[i].1@.len() == sum(queues) + q.1@.len(),
    decreases queues.len(),
{
    let n = queues.update(i, q);
    if i == queues.len() - 1 {
        assert(n.drop_last() =~= queues.drop_last());
    } else {
        lemma_sum_update(queues.drop_last(), i, q);
        assert(n.drop_last() =~= queues.drop_last().update(i, q));
    }
}

proof fn lemma_sum_remove(queues: Seq<Queue>, i: int)
    requires
        0 <= i < queues.len(),
    ensures
        sum(queues.remove(i)) + queues[i].1@.len() == sum(queues),
    decreases queues.len(),
{
    let n = queues.remove(i);
    if i == queues.len() - 1 {
        assert(n =~= queues.drop_last());
    } else {
        lemma_sum_remove(queues.drop_last(), i);
        assert(n.drop_last() =~= queues.drop_last().remove(i));
    }
}

/// The queues of accepted messages that have not been delivered.
#[derive(Debug)]
pub struct Mailboxes {
    queues: Vec<Queue>,
}

/// The queues after a message has been put on the queue of each recipient in turn, as a function
/// from agents to queues.
pub open spec fn queued(
    pending: spec_fn(AgentId) -> Seq<MessageId>,
    recipients: Seq<AgentId>,
    message: MessageId,
    agent: AgentId,
) -> Seq<MessageId>
    decreases recipients.len(),
{
    if recipients.len() == 0 {
        pending(agent)
    } else {
        let before = queued(pending, recipients.drop_last(), message, agent);
        if recipients.last() == agent {
            before.push(message)
        } else {
            before
        }
    }
}

/// The queue of an agent in a table of queues that are not empty.
pub open spec fn mail_for(mail: Map<AgentId, Seq<MessageId>>, agent: AgentId) -> Seq<MessageId> {
    if mail.dom().contains(agent) {
        mail[agent]
    } else {
        Seq::empty()
    }
}

/// The queues after a message has been put on the queue of each recipient in turn.
pub open spec fn mailed(
    mail: Map<AgentId, Seq<MessageId>>,
    recipients: Seq<AgentId>,
    message: MessageId,
) -> Map<AgentId, Seq<MessageId>>
    decreases recipients.len(),
{
    if recipients.len() == 0 {
        mail
    } else {
        let before = mailed(mail, recipients.drop_last(), message);
        let who = recipients.last();
        before.insert(who, mail_for(before, who).push(message))
    }
}

/// The queues after the `n` oldest ids have been taken off an agent's queue.
pub open spec fn unmailed(mail: Map<AgentId, Seq<MessageId>>, agent: AgentId, n: int) -> Map<
    AgentId,
    Seq<MessageId>,
> {
    let rest = mail_for(mail, agent).skip(n);
    if rest.len() == 0 {
        mail.remove(agent)
    } else {
        mail.insert(agent, rest)
    }
}

impl View for Mailboxes {
    type V = Map<AgentId, Seq<MessageId>>;

    open spec fn view(&self) -> Map<AgentId, Seq<MessageId>> {
        Map::new(|a: AgentId| self.pending(a).len() > 0, |a: AgentId| self.pending(a))
    }
}

impl Default for Mailboxes {
    fn default() -> (m: Mailboxes)
        ensures
            m.wf(),
            forall|a: AgentId| m.pending(a) == Seq::<MessageId>::empty(),
            m.total() == 0,
    {
        Mailboxes::new()
    }
}

impl Mailboxes {
    /// The ids queued for an agent, oldest first.
    pub closed spec fn pending(self, agent: AgentId) -> Seq<MessageId> {
        match queue_at(self.queues@, agent, 0) {
            Some(i) => self.queues@[i].1@,
            None => Seq::empty(),
        }
    }

    /// How many ids are queued in all.
    pub closed spec fn total(self) -> nat {
        sum(self.queues@)
    }

    /// No agent has two queues, and none has an empty one.
    pub closed spec fn wf(self) -> bool {
        &&& forall|i: int, j: int|
            0 <= i < self.queues.len() && 0 <= j < self.queues.len() && (
            #[trigger] self.queues@[i]).0 == (#[trigger] self.queues@[j]).0 ==> i == j
        &&& forall|i: int| 0 <= i < self.queues.len() ==> (#[trigger] self.queues@[i]).1@.len() > 0
    }

    /// No queues.
    pub fn new() -> (m: Mailboxes)
        ensures
            m.wf(),
            forall|a: AgentId| m.pending(a) == Seq::<MessageId>::empty(),
            m@ == Map::<AgentId, Seq<MessageId>>::empty(),
            m.total() == 0,
    {
        let m = Mailboxes { queues: Vec::new() };
        assert(m@ =~= Map::<AgentId, Seq<MessageId>>::empty());
        m
    }

    /// The position of an agent's queue.
    fn find(&self, agent: AgentId) -> (r: Option<usize>)
        ensures
            match r {
                Some(i) => queue_at(self.queues@, agent, 0) == Some(i as int) && i
                    < self.queues.len() && self.queues@[i as int].0 == agent,
                None => queue_at(self.queues@, agent, 0) is None,
            },
    {
        let mut i: usize = 0;
        while i < self.queues.len()
            invariant
                0 <= i <= self.queues.len(),
                queue_at(self.queues@, agent, 0) == queue_at(self.queues@, agent, i as int),
            decreases self.queues.len() - i,
        {
            if self.queues[i].0 == agent {
                return Some(i);
            }
            i = i + 1;
        }
        None
    }

    /// Puts a message on one agent's queue.
    fn push_one(&mut self, agent: AgentId, message: MessageId)
        requires
            old(self).wf(),
        ensures
            final(self).wf(),
            forall|a: AgentId|
                final(self).pending(a) == (if a == agent {
                    old(self).pending(a).push(message)
                } else {
                    old(self).pending(a)
                }),
            final(self)@ == old(self)@.insert(agent, mail_for(old(self)@, agent).push(message)),
            final(self).total() == old(self).total() + 1,
    {
        let ghost before = self.queues@;
        match self.find(agent) {
            Some(i) => {
                self.queues[i].1.push(message);
                let ghost after = self.queues@;
                proof {
                    assert(after =~= before.update(i as int, after[i as int]));
                    lemma_sum_update(before, i as int, after[i as int]);
                    assert forall|a: AgentId| #[trigger] self.pending(a) == (if a == agent {
                        old(self).pending(a).push(message)
                    } else {
                        old(self).pending(a)
                    }) by {
                        lemma_queue_at(before, a, 0);
                        lemma_queue_at(after, a, 0);
                        if queue_at(before, a, 0) is Some {
                            lemma_queue_is(after, a, 0, queue_at(before, a, 0)->0);
                        }
                    }
                }
            },
            None => {
                let mut queue: Vec<MessageId> = Vec::new();
                queue.push(message);
                let ghost entry = (agent, queue);
                self.queues.push((agent, queue));
                let ghost after = self.queues@;
                proof {
                    assert(after.drop_last() =~= before);
                    lemma_queue_at(before, agent, 0);
                    assert forall|a: AgentId| #[trigger] self.pending(a) == (if a == agent {
                        old(self).pending(a).push(message)
                    } else {
                        old(self).pending(a)
                    }) by {
                        lemma_queue_at(before, a, 0);
                        lemma_queue_at(after, a, 0);
                        if a == agent {
                            lemma_queue_is(after, a, 0, before.len() as int);
                            assert(self.pending(a) =~= old(self).pending(a).push(message));
                        } else if queue_at(before, a, 0) is Some {
                            lemma_queue_is(after, a, 0, queue_at(before, a, 0)->0);
                        }
                    }
                }
            },
        }
        assert(mail_for(old(self)@, agent) =~= old(self).pending(agent));
        assert(self@ =~= old(self)@.insert(agent, mail_for(old(self)@, agent).push(message)));
    }

    /// Puts an accepted message on each recipient's queue.
    pub fn push_for_recipients(&mut self, recipients: &Vec<AgentId>, message: MessageId)
        requires
            old(self).wf(),
        ensures
            final(self).wf(),
            forall|a: AgentId|
                #![trigger final(self).pending(a)]
                final(self).pending(a) == queued(
                    |x: AgentId| old(self).pending(x),
                    recipients@,
                    message,
                    a,
                ),
            final(self)@ == mailed(old(self)@, recipients@, message),
            final(self).total() == old(self).total() + recipients@.len(),
    {
        let ghost base = |x: AgentId| old(self).pending(x);
        let mut i: usize = 0;
        assert(recipients@.take(0) =~= Seq::<AgentId>::empty());
        while i < recipients.len()
            invariant
                0 <= i <= recipients.len(),
                self.wf(),
                base == (|x: AgentId| old(self).pending(x)),
                forall|a: AgentId|
                    #![trigger self.pending(a)]
                    self.pending(a) == queued(base, recipients@.take(i as int), message, a),
                self@ == mailed(old(self)@, recipients@.take(i as int), message),
                self.total() == old(self).total() + i,
            decreases recipients.len() - i,
        {
            assert(recipients@.take(i + 1).drop_last() =~= recipients@.take(i as int));
            assert(recipients@.take(i + 1).last() == recipients@[i as int]);
            self.push_one(recipients[i], message);
            i = i + 1;
        }
        assert(recipients@.take(i as int) =~= recipients@);
    }

    /// The ids queued for an agent, oldest first, left where they are.
    pub fn peek(&self, agent: &AgentId) -> (r: Vec<MessageId>)
        ensures
            r@ == self.pending(*agent),
            r@ == mail_for(self@, *agent),
    {
        let mut r: Vec<MessageId> = Vec::new();
        if let Some(i) = self.find(*agent) {
            let queue = &self.queues[i].1;
            let mut k: usize = 0;
            while k < queue.len()
                invariant
                    0 <= k <= queue.len(),
                    r@ == queue@.take(k as int),
                decreases queue.len() - k,
            {
                r.push(queue[k]);
                assert(r@ =~= queue@.take(k + 1));
                k = k + 1;
            }
            assert(r@ =~= queue@);
        }
        assert(r@ =~= mail_for(self@, *agent));
        r
    }

    /// Takes up to `take` of the oldest ids off an agent's queue; the rest stays.
    pub fn drain(&mut self, agent: &AgentId, take: usize) -> (r: Vec<MessageId>)
        requires
            old(self).wf(),
        ensures
            final(self).wf(),
            ({
                let queue = old(self).pending(*agent);
                let n = if take <= queue.len() {
                    take as int
                } else {
                    queue.len() as int
                };
                &&& r@ == queue.take(n)
                &&& final(self).pending(*agent) == queue.skip(n)
                &&& final(self)@ == unmailed(old(self)@, *agent, n)
                &&& final(self).total() == old(self).total() - n
            }),
            forall|a: AgentId|
                a != *agent ==> #[trigger] final(self).pending(a) == old(self).pending(a),
    {
        let ghost before = self.queues@;
        let i = match self.find(*agent) {
            Some(i) => i,
            None => {
                let r: Vec<MessageId> = Vec::new();
                assert(r@ =~= old(self).pending(*agent).take(0));
                assert(old(self).pending(*agent).skip(0) =~= old(self).pending(*agent));
                assert(self@ =~= unmailed(old(self)@, *agent, 0));
                return r;
            },
        };
        let (who, mut queue) = self.queues.remove(i);
        let ghost middle = self.queues@;
        let ghost whole = queue@;
        let n: usize = if take <= queue.len() { take } else { queue.len() };
        let rest = queue.split_off(n);
        assert(queue@ =~= whole.take(n as int));
        assert(rest@ =~= whole.skip(n as int));
        let ghost left = rest@;
        if rest.len() > 0 {
            self.queues.push((who, rest));
        }
        let ghost after = self.queues@;
        proof {
            lemma_sum_remove(before, i as int);
            if left.len() > 0 {
                assert(after.drop_last() =~= middle);
            }
            lemma_queue_at(before, *agent, 0);
            assert forall|j: int| 0 <= j < middle.len() implies #[trigger] middle[j] == (if j < i {
                before[j]
            } else {
                before[j + 1]
            }) by {}
            assert forall|a: AgentId| a != *agent implies #[trigger] self.pending(a) == old(
                self,
            ).pending(a) by {
                lemma_queue_at(before, a, 0);
                lemma_queue_at(after, a, 0);
                if queue_at(before, a, 0) is Some {
                    let k = queue_at(before, a, 0)->0;
                    let m = if k < i { k } else { k - 1 };
                    assert(after[m] == before[k]);
                    lemma_queue_is(after, a, 0, m);
                } else if queue_at(after, a, 0) is Some {
                    let m = queue_at(after, a, 0)->0;
                    if m < middle.len() {
                        assert(after[m] == middle[m]);
                    }
                }
            }
            lemma_queue_at(after, *agent, 0);
            if left.len() > 0 {
                lemma_queue_is(after, *agent, 0, middle.len() as int);
            } else {
                assert(after == middle);
                assert(self.pending(*agent) =~= whole.skip(n as int));
            }
            assert(mail_for(old(self)@, *agent) =~= old(self).pending(*agent));
            assert(self@ =~= unmailed(old(self)@, *agent, n as int));
        }
        queue
    }

    /// The oldest id queued for an agent.
    pub fn oldest(&self, agent: &AgentId) -> (r: Option<MessageId>)
        requires
            self.wf(),
        ensures
            r == (if self.pending(*agent).len() > 0 {
                Some(self.pending(*agent)[0])
            } else {
                None
            }),
    {
        match self.find(*agent) {
            Some(i) => Some(self.queues[i].1[0]),
            None => None,
        }
    }

    /// How many ids are queued for an agent.
    pub fn depth(&self, agent: &AgentId) -> (n: usize)
        ensures
            n == self.pending(*agent).len(),
            n == mail_for(self@, *agent).len(),
    {
        match self.find(*agent) {
            Some(i) => self.queues[i].1.len(),
            None => 0,
        }
    }

    /// How many ids are queued in all.
    pub fn total_depth(&self) -> (n: usize)
        requires
            self.total() <= usize::MAX,
        ensures
            n == self.total(),
    {
        let mut n: usize = 0;
        let mut i: usize = 0;
        assert(self.queues@.take(0) =~= Seq::<Queue>::empty());
        while i < self.queues.len()
            invariant
                0 <= i <= self.queues.len(),
                n == sum(self.queues@.take(i as int)),
                sum(self.queues@) <= usize::MAX,
            decreases self.queues.len() - i,
        {
            assert(self.queues@.take(i + 1).drop_last() =~= self.queues@.take(i as int));
            proof {
                lemma_sum_prefix(self.queues@, i + 1);
            }
            n = n + self.queues[i].1.len();
            i = i + 1;
        }
        assert(self.queues@.take(i as int) =~= self.queues@);
        n
    }

    /// Whether nothing is queued.
    pub fn is_empty(&self) -> (b: bool)
        requires
            self.wf(),
        ensures
            b == (self.total() == 0),
            b ==> forall|a: AgentId| self.pending(a).len() == 0,
    {
        if self.queues.len() > 0 {
            proof {
                let q = self.queues@;
                assert(q.last() == q[q.len() - 1]);
            }
            false
        } else {
            true
        }
    }
}

proof fn lemma_sum_prefix(queues: Seq<Queue>, i: int)
    requires
        0 <= i <= queues.len(),
    ensures
        sum(queues.take(i)) <= sum(queues),
    decreases queues.len() - i,
{
    if i == queues.len() {
        assert(queues.take(i) =~= queues);
    } else {
        lemma_sum_prefix(queues, i + 1);
        assert(queues.take(i + 1).drop_last() =~= queues.take(i));
    }
}

/// Draining twice delivers the same ids in the same order as draining once with the sum: what is
/// left over carries over, oldest first, and nothing is lost.
pub proof fn drains_compose(queue: Seq<MessageId>, a: nat, b: nat)
    requires
        a + b <= queue.len(),
    ensures
        queue.take(a as int) + queue.skip(a as int).take(b as int) == queue.take((a + b) as int),
        queue.skip(a as int).skip(b as int) == queue.skip((a + b) as int),
{
    assert(queue.take(a as int) + queue.skip(a as int).take(b as int) =~= queue.take(
        (a + b) as int,
    ));
    assert(queue.skip(a as int).skip(b as int) =~= queue.skip((a + b) as int));
}

/// A message is queued once for each time its recipient is named, behind what was queued before.
pub proof fn queued_behind(
    pending: spec_fn(AgentId) -> Seq<MessageId>,
    recipients: Seq<AgentId>,
    message: MessageId,
    agent: AgentId,
)
    ensures
        ({
            let after = queued(pending, recipients, message, agent);
            let n = recipients.filter(|r: AgentId| r == agent).len();
            &&& after.len() == pending(agent).len() + n
            &&& after.take(pending(agent).len() as int) == pending(agent)
            &&& forall|i: int|
                pending(agent).len() <= i < after.len() ==> #[trigger] after[i] == message
        }),
    decreases recipients.len(),
{
    reveal(Seq::filter);
    let after = queued(pending, recipients, message, agent);
    if recipients.len() == 0 {
        assert(after.take(pending(agent).len() as int) =~= pending(agent));
    } else {
        queued_behind(pending, recipients.drop_last(), message, agent);
        assert(after.take(pending(agent).len() as int) =~= pending(agent)) by {
            let before = queued(pending, recipients.drop_last(), message, agent);
            assert(before.take(pending(agent).len() as int) == pending(agent));
            assert forall|i: int| 0 <= i < pending(agent).len() implies after[i] == pending(
                agent,
            )[i] by {
                assert(before.take(pending(agent).len() as int)[i] == before[i]);
            }
        }
    }
}

} // verus!
