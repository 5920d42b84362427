use openteam::agent::Role;
use openteam::json::Json;
use openteam::tools::{ToolOutcome, ToolRegistry};

const ROLES: [Role; 3] = [Role::TeamAgent, Role::Orchestrator, Role::MetaAgent];

#[test]
fn registry_counts_match_the_map() {
    let registry = ToolRegistry::new(&schemas()).unwrap();
    assert_eq!(registry.tool_defs(Role::TeamAgent).len(), 7);
    assert_eq!(registry.tool_defs(Role::Orchestrator).len(), 14);
    assert_eq!(registry.tool_defs(Role::MetaAgent).len(), 6);
}

/// The schemas of the verbs' arguments, each with the keys that requests leave out.
fn schemas() -> Vec<(String, Json)> {
    [
        (
            "claim_task",
            r##"{"$schema":"https://json-schema.org/draft/2020-12/schema","title":"ClaimTaskArgs","type":"object","properties":{"task":{"description":"TaskId to claim.","type":"integer","format":"uint64","minimum":0}},"additionalProperties":false,"required":["task"]}"##,
        ),
        (
            "complete_task",
            r##"{"$schema":"https://json-schema.org/draft/2020-12/schema","title":"CompleteTaskArgs","type":"object","properties":{"result":{"type":"string"}},"additionalProperties":false,"required":["result"]}"##,
        ),
        (
            "release_task",
            r##"{"$schema":"https://json-schema.org/draft/2020-12/schema","title":"ReleaseTaskArgs","type":"object","properties":{"reason":{"type":["string","null"],"default":null}},"additionalProperties":false}"##,
        ),
        (
            "post_message",
            r##"{"$schema":"https://json-schema.org/draft/2020-12/schema","title":"PostMessageArgs","type":"object","properties":{"to":{"description":"Direct address: a single agent handle.","type":["string","null"],"default":null},"team":{"description":"Team address: a live team id.","type":["string","null"],"default":null},"broadcast":{"description":"Broadcast to the orchestrator and all team agents.","type":["boolean","null"],"default":null},"body":{"type":"string"}},"additionalProperties":false,"required":["body"]}"##,
        ),
        (
            "write_knowledge",
            r##"{"$schema":"https://json-schema.org/draft/2020-12/schema","title":"WriteKnowledgeArgs","type":"object","properties":{"text":{"type":"string"}},"additionalProperties":false,"required":["text"]}"##,
        ),
        (
            "search_knowledge",
            r##"{"$schema":"https://json-schema.org/draft/2020-12/schema","title":"SearchKnowledgeArgs","type":"object","properties":{"query":{"type":"string"},"k":{"description":"Top-k (default 3).","type":["integer","null"],"format":"uint32","minimum":0,"default":null}},"additionalProperties":false,"required":["query"]}"##,
        ),
        (
            "sleep",
            r##"{"$schema":"https://json-schema.org/draft/2020-12/schema","title":"SleepArgs","type":"object","additionalProperties":false}"##,
        ),
        (
            "create_task",
            r##"{"$schema":"https://json-schema.org/draft/2020-12/schema","title":"CreateTaskArgs","type":"object","properties":{"title":{"type":"string"},"description":{"type":"string"},"team":{"description":"TeamId tag, or null for untagged.","type":["string","null"],"default":null}},"additionalProperties":false,"required":["title","description"]}"##,
        ),
        (
            "cancel_task",
            r##"{"$schema":"https://json-schema.org/draft/2020-12/schema","title":"CancelTaskArgs","type":"object","properties":{"task":{"type":"integer","format":"uint64","minimum":0},"reason":{"type":"string"}},"additionalProperties":false,"required":["task","reason"]}"##,
        ),
        (
            "unassign_task",
            r##"{"$schema":"https://json-schema.org/draft/2020-12/schema","title":"UnassignTaskArgs","type":"object","properties":{"task":{"type":"integer","format":"uint64","minimum":0},"reason":{"type":["string","null"],"default":null},"in_response_to":{"description":"DirectiveId being fulfilled.","type":["integer","null"],"format":"uint64","minimum":0,"default":null}},"additionalProperties":false,"required":["task"]}"##,
        ),
        (
            "form_team",
            r##"{"$schema":"https://json-schema.org/draft/2020-12/schema","title":"FormTeamArgs","type":"object","properties":{"team":{"type":"string"},"members":{"type":"array","items":{"type":"string"}}},"additionalProperties":false,"required":["team","members"]}"##,
        ),
        (
            "dissolve_team",
            r##"{"$schema":"https://json-schema.org/draft/2020-12/schema","title":"DissolveTeamArgs","type":"object","properties":{"team":{"type":"string"}},"additionalProperties":false,"required":["team"]}"##,
        ),
        (
            "set_team_members",
            r##"{"$schema":"https://json-schema.org/draft/2020-12/schema","title":"SetTeamMembersArgs","type":"object","properties":{"team":{"type":"string"},"members":{"type":"array","items":{"type":"string"}},"in_response_to":{"description":"DirectiveId being fulfilled.","type":["integer","null"],"format":"uint64","minimum":0,"default":null}},"additionalProperties":false,"required":["team","members"]}"##,
        ),
        (
            "respecialize",
            r##"{"$schema":"https://json-schema.org/draft/2020-12/schema","title":"RespecializeArgs","type":"object","properties":{"agent":{"type":"string"},"specialty":{"$ref":"#/$defs/SpecialtyArgs"},"in_response_to":{"description":"DirectiveId being fulfilled.","type":["integer","null"],"format":"uint64","minimum":0,"default":null}},"additionalProperties":false,"required":["agent","specialty"],"$defs":{"SpecialtyArgs":{"type":"object","properties":{"name":{"description":"Slug.","type":"string"},"description":{"type":"string"},"focus":{"type":"string"}},"additionalProperties":false,"required":["name","description","focus"]}}}"##,
        ),
        (
            "sleep_agent",
            r##"{"$schema":"https://json-schema.org/draft/2020-12/schema","title":"SleepAgentArgs","type":"object","properties":{"agent":{"type":"string"}},"additionalProperties":false,"required":["agent"]}"##,
        ),
        (
            "wake_agent",
            r##"{"$schema":"https://json-schema.org/draft/2020-12/schema","title":"WakeAgentArgs","type":"object","properties":{"agent":{"type":"string"}},"additionalProperties":false,"required":["agent"]}"##,
        ),
        (
            "decline_directive",
            r##"{"$schema":"https://json-schema.org/draft/2020-12/schema","title":"DeclineDirectiveArgs","type":"object","properties":{"directive":{"type":"integer","format":"uint64","minimum":0},"reason":{"type":"string"}},"additionalProperties":false,"required":["directive","reason"]}"##,
        ),
        (
            "finish_run",
            r##"{"$schema":"https://json-schema.org/draft/2020-12/schema","title":"FinishRunArgs","type":"object","properties":{"report":{"type":"string"}},"additionalProperties":false,"required":["report"]}"##,
        ),
        (
            "set_parallelism",
            r##"{"$schema":"https://json-schema.org/draft/2020-12/schema","title":"SetParallelismArgs","type":"object","properties":{"target":{"type":"integer","format":"uint32","minimum":0}},"additionalProperties":false,"required":["target"]}"##,
        ),
        (
            "propose_respecialize",
            r##"{"$schema":"https://json-schema.org/draft/2020-12/schema","title":"ProposeRespecializeArgs","type":"object","properties":{"agent":{"type":"string"},"specialty":{"description":"Proposed slug/hint; the orchestrator authors the full 3-field specialty.","type":"string"}},"additionalProperties":false,"required":["agent","specialty"]}"##,
        ),
        (
            "propose_reallocate",
            r##"{"$schema":"https://json-schema.org/draft/2020-12/schema","title":"ProposeReallocateArgs","type":"object","properties":{"task":{"type":"integer","format":"uint64","minimum":0},"reason":{"type":"string"}},"additionalProperties":false,"required":["task","reason"]}"##,
        ),
        (
            "propose_rebalance",
            r##"{"$schema":"https://json-schema.org/draft/2020-12/schema","title":"ProposeRebalanceArgs","type":"object","properties":{"team":{"type":"string"},"members":{"type":"array","items":{"type":"string"}}},"additionalProperties":false,"required":["team","members"]}"##,
        ),
    ]
    .iter()
    .map(|(name, schema)| (name.to_string(), Json::parse(schema).unwrap()))
    .collect()
}

#[test]
fn schemas_are_strict_objects_without_schema_key() {
    let given = schemas();
    let registry = ToolRegistry::new(&given).unwrap();
    for role in ROLES {
        for def in registry.tool_defs(role) {
            let params = def.parameters.as_ref().unwrap();
            assert!(matches!(params, Json::Object(_)));
            assert!(params.get("$schema").is_none(), "{}", def.name);
            assert!(params.get("title").is_none(), "{}", def.name);
            assert_eq!(
                params.get("additionalProperties").unwrap().render(),
                "false",
                "{} must deny unknown fields",
                def.name
            );
            let (_, own) = given.iter().find(|(name, _)| *name == def.name).unwrap();
            assert!(own.get("$schema").is_some());
            assert_eq!(
                params.get("properties").map(Json::render),
                own.get("properties").map(Json::render)
            );
            assert_eq!(
                params.get("required").map(Json::render),
                own.get("required").map(Json::render)
            );
            assert!(!def.strict);
        }
    }
    let claim = &registry.tool_defs(Role::TeamAgent)[0];
    assert_eq!(claim.name, "claim_task");
    assert_eq!(
        claim.parameters.as_ref().unwrap().get("required").unwrap().render(),
        "[\"task\"]"
    );
}

#[test]
fn verbs_without_a_strict_schema_make_no_registry() {
    for i in 0..schemas().len() {
        let mut lacking = schemas();
        lacking.remove(i);
        assert!(ToolRegistry::new(&lacking).is_none());
        for lax in ["{}", "{\"additionalProperties\":true}", "false", "[]"] {
            let mut loose = schemas();
            loose[i].1 = Json::parse(lax).unwrap();
            assert!(ToolRegistry::new(&loose).is_none());
        }
    }
}

#[test]
fn outcome_envelope_serializes_the_pinned_shapes() {
    assert_eq!(
        ToolOutcome::ok(Json::parse("{\"task\": 1}").unwrap()).to_content(),
        r#"{"status":"ok","result":{"task":1}}"#
    );
    assert_eq!(
        ToolOutcome::rejected(
            "task_not_open",
            "task 1 is not Open (Claimed by agent-1)".to_string()
        )
        .to_content(),
        r#"{"status":"rejected","code":"task_not_open","message":"task 1 is not Open (Claimed by agent-1)"}"#
    );
    assert_eq!(
        ToolOutcome::unknown_verb("bogus").word(),
        "invalid",
        "unknown verb is a schema fault"
    );
    let invalid = ToolOutcome::invalid_arguments("bad".to_string());
    assert_eq!(
        Json::parse(&invalid.to_content())
            .unwrap()
            .get("status")
            .unwrap()
            .as_str(),
        Some("invalid")
    );
    assert!(invalid.is_invalid());
}

#[test]
fn roles_have_their_own_verbs() {
    let registry = ToolRegistry::new(&schemas()).unwrap();
    assert!(registry.contains(Role::TeamAgent, "claim_task"));
    assert!(!registry.contains(Role::TeamAgent, "finish_run"));
    assert!(registry.contains(Role::Orchestrator, "finish_run"));
    assert!(registry.contains(Role::MetaAgent, "set_parallelism"));
    assert!(!registry.contains(Role::MetaAgent, "claim_task"));
}
