use openteam::agent::{AgentId, ParsedUser, SpecialtySlug};
use openteam::knowledge::EmbedError;
use openteam::llm::{
    classify_status, endpoint, endpoint_from, fault, first_vector, with_trailing_slash,
    AgentChannel, LlmError, ReplyKind, HEADER_CALL_SEQ, HEADER_SEED,
};
use openteam::wire::ApiError;

#[test]
fn channel_counts_monotonically_and_survives_respecialize() {
    let mut channel = AgentChannel::new(AgentId::team(1), 42);
    let first = channel.next_identity();
    let second = channel.next_identity();
    channel.set_specialty(SpecialtySlug::parse("doc-curator").unwrap());
    let third = channel.next_identity();
    assert_eq!(
        (first.call_seq, second.call_seq, third.call_seq),
        (0, 1, 2),
        "monotonic, never reset"
    );
    assert_eq!(first.user, "team-agent:agent-1:generalist");
    assert_eq!(third.user, "team-agent:agent-1:doc-curator");
    assert_eq!(third.call_seq, 2);
    assert_eq!(third.seed, 42);
    assert_eq!(channel.next_call_seq(), 3);
}

#[test]
fn orchestrator_and_meta_render_their_grammar() {
    let orch = AgentChannel::new(AgentId::orchestrator(), 1);
    assert_eq!(orch.rendered_user(), "orchestrator");
    let meta = AgentChannel::new(AgentId::meta(1), 1);
    assert_eq!(meta.rendered_user(), "meta-agent:meta-1");
}

#[test]
fn identities_read_back() {
    for user in [
        "orchestrator",
        "team-agent:agent-12:doc-curator",
        "meta-agent:meta-3",
    ] {
        assert_eq!(ParsedUser::parse(user).unwrap().render(), user);
    }
    for junk in ["", "team-agent:bogus", "team-agent:meta-1:x", "meta-agent:agent-1"] {
        assert!(ParsedUser::parse(junk).is_none(), "{junk}");
    }
}

#[test]
fn endpoints_join_under_the_base_path() {
    let base = with_trailing_slash("https://host.example/api").unwrap();
    assert_eq!(base, "https://host.example/api/");
    assert_eq!(
        endpoint(&base, "chat/completions").unwrap(),
        "https://host.example/api/chat/completions"
    );
    let mock = with_trailing_slash("http://127.0.0.1:8080/v1/").unwrap();
    assert_eq!(mock, "http://127.0.0.1:8080/v1/");
    assert_eq!(
        endpoint(&mock, "embeddings").unwrap(),
        "http://127.0.0.1:8080/v1/embeddings"
    );
    assert_eq!(with_trailing_slash("not a url"), None);
    assert!(matches!(
        endpoint("not a url", "x"),
        Err(LlmError::Transport(_))
    ));
    assert_eq!(
        endpoint_from(Err("no base".to_string())),
        Err(LlmError::Transport("bad endpoint url: no base".to_string()))
    );
}

#[test]
fn replies_are_classified_by_status() {
    assert_eq!(classify_status(200), ReplyKind::Answer);
    assert_eq!(classify_status(299), ReplyKind::Answer);
    assert_eq!(classify_status(300), ReplyKind::Fault);
    assert_eq!(classify_status(199), ReplyKind::Fault);
}

#[test]
fn errors_read_as_text() {
    let given = ApiError {
        message: "no such model".to_string(),
        kind: "invalid_request_error".to_string(),
        param: None,
        code: Some("model_not_found".to_string()),
    };
    assert_eq!(
        fault(404, Some(given), "ignored".to_string()).message(),
        "llm endpoint returned 404: no such model"
    );
    let raw = fault(502, None, "bad gateway".to_string());
    assert_eq!(raw.message(), "llm endpoint returned 502: bad gateway");
    assert!(matches!(raw, LlmError::Http { status: 502, ref error } if error.kind == "invalid_request_error"));
    assert_eq!(
        LlmError::Transport("refused".to_string()).message(),
        "llm transport error: refused"
    );
    assert_eq!(
        LlmError::Malformed("eof".to_string()).message(),
        "malformed llm response: eof"
    );
}

#[test]
fn the_first_vector_counts() {
    assert_eq!(first_vector(vec![7, 8]), Ok(7));
    assert_eq!(
        first_vector(Vec::<u8>::new()),
        Err(EmbedError::Backend("empty embeddings response".to_string()))
    );
}

#[test]
fn header_names_are_fixed() {
    assert_eq!(HEADER_CALL_SEQ, "X-OpenTeam-Call-Seq");
    assert_eq!(HEADER_SEED, "X-OpenTeam-Seed");
}
