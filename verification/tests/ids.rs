use openteam::ids::{
    parse_run_id, run_id_text, DirectiveId, EventId, KnowledgeEntryId, MessageId, TaskId, TeamId,
};

#[test]
fn u64_ids_are_transparent_ordered_and_displayable() {
    let a = TaskId::new(1);
    let b = TaskId::new(2);
    assert!(a < b);
    assert_eq!(a.get(), 1);
    assert_eq!(a.text(), "1");
    assert_eq!(serde_json::to_value(a.get()).unwrap(), serde_json::Value::from(1));
    let back = TaskId::from(serde_json::from_str::<u64>("7").unwrap());
    assert_eq!(back, TaskId::new(7));
    assert_eq!(u64::from(EventId::new(0)), 0);
    assert_eq!(MessageId::from(3).get(), 3);
    assert_eq!(KnowledgeEntryId::new(6).text(), "6");
    assert_eq!(DirectiveId::new(1).get(), 1);
}

#[test]
fn team_id_validates_nonempty_whitespace_free() {
    assert_eq!(TeamId::parse("t1").unwrap().as_str(), "t1");
    assert_eq!(TeamId::parse("docs-team").unwrap().as_str(), "docs-team");
    for junk in ["", "t 1", " t1", "t1\n"] {
        assert!(TeamId::parse(junk).is_err(), "should reject {junk:?}");
    }
}

#[test]
fn team_id_errors_quote_the_text() {
    assert_eq!(
        TeamId::parse("t 1").unwrap_err().message(),
        "invalid team id \"t 1\": must be non-empty with no whitespace"
    );
    assert_eq!(
        TeamId::parse("a\n").unwrap_err().message(),
        "invalid team id \"a\\n\": must be non-empty with no whitespace"
    );
}

#[test]
fn run_ids_read_back_in_the_hyphenated_form() {
    let id = parse_run_id("0192F1A0-7E3C-7ABC-9DEF-000000000000").unwrap();
    assert_eq!(id, 0x0192_f1a0_7e3c_7abc_9def_0000_0000_0000);
    assert_eq!(run_id_text(id), "0192f1a0-7e3c-7abc-9def-000000000000");
    assert_eq!(parse_run_id(run_id_text(id).as_str()), Some(id));
    assert_eq!(parse_run_id("0192f1a07e3c7abc9def000000000000"), Some(id));
    assert_eq!(parse_run_id("../etc"), None);
    assert_eq!(run_id_text(0), "00000000-0000-0000-0000-000000000000");
}
