use openteam::agent::AgentId;
use openteam::ids::{KnowledgeEntryId, MessageId, TeamId};
use openteam::message::{Address, Mailboxes, Message};

fn msg(n: u64) -> MessageId {
    MessageId::new(n)
}

#[test]
fn address_scope_labels_match_the_fresh_messages_grammar() {
    assert_eq!(
        Address::Direct {
            to: AgentId::team(1)
        }
        .scope_label(),
        "direct"
    );
    assert_eq!(
        Address::Team {
            team: TeamId::parse("t1").unwrap()
        }
        .scope_label(),
        "team:t1"
    );
    assert_eq!(Address::Broadcast.scope_label(), "broadcast");
}

#[test]
fn message_fresh_line_matches_the_pinned_grammar() {
    let message = Message {
        id: msg(1),
        sender: AgentId::orchestrator(),
        address: Address::Direct {
            to: AgentId::team(1),
        },
        body: "Prioritize the setup section; the guide leads with it.".into(),
        knowledge_ref: KnowledgeEntryId::new(1),
    };
    assert_eq!(
        message.fresh_line(),
        "- msg 1 from orchestrator (direct): \"Prioritize the setup section; the guide leads with it.\""
    );
}

#[test]
fn mailboxes_drain_oldest_first_with_carryover_and_stay_lossless() {
    let a1 = AgentId::team(1);
    let a2 = AgentId::team(2);
    let mut boxes = Mailboxes::new();
    boxes.push_for_recipients(&vec![a1, a2], msg(1));
    boxes.push_for_recipients(&vec![a1], msg(2));
    boxes.push_for_recipients(&vec![a1], msg(3));

    assert_eq!(boxes.depth(&a1), 3);
    assert_eq!(boxes.total_depth(), 4);
    assert_eq!(boxes.oldest(&a1), Some(msg(1)));

    // Budgeted drain: take 2, one carries over.
    assert_eq!(boxes.drain(&a1, 2), vec![msg(1), msg(2)]);
    assert_eq!(boxes.depth(&a1), 1);
    assert_eq!(boxes.peek(&a1), vec![msg(3)]);

    // Over-budget take drains what's there.
    assert_eq!(boxes.drain(&a1, 10), vec![msg(3)]);
    assert_eq!(boxes.depth(&a1), 0);

    // a2's queue was untouched — lossless.
    assert_eq!(boxes.peek(&a2), vec![msg(1)]);
    assert!(!boxes.is_empty());
    assert_eq!(boxes.drain(&a2, 1), vec![msg(1)]);
    assert!(boxes.is_empty());
    assert!(boxes.drain(&a2, 1).is_empty());
}

#[test]
fn two_drains_give_what_one_would() {
    let a1 = AgentId::team(1);
    let mut split = Mailboxes::new();
    let mut whole = Mailboxes::new();
    for n in 1..=5 {
        split.push_for_recipients(&vec![a1], msg(n));
        whole.push_for_recipients(&vec![a1], msg(n));
    }
    let mut drained = split.drain(&a1, 2);
    drained.extend(split.drain(&a1, 2));
    assert_eq!(drained, whole.drain(&a1, 4));
    assert_eq!(split.peek(&a1), whole.peek(&a1));
}
