use clawpal::agent_fallback::{
    compose_message, extract_json_objects, finish_guidance, guidance_prompt, parse_guidance_json,
    probe_from_outputs, rules_fallback, should_probe_openclaw, OpenclawProbe,
};

#[test]
fn parse_guidance_json_accepts_embedded_json() {
    let raw = "分析如下 {\"summary\":\"远程命令不存在\",\"actions\":[\"安装命令\",\"重试\"]}";
    let parsed = parse_guidance_json(raw).expect("should parse");
    assert_eq!(parsed.summary, "远程命令不存在");
    assert_eq!(parsed.actions.len(), 2);
}

#[test]
fn rules_fallback_handles_openclaw_not_found() {
    let result = rules_fallback(
        "openclaw command not found",
        "remote_ssh",
        "listAgents",
        Some(&OpenclawProbe {
            openclaw_path: None,
            path: Some("/usr/bin:/bin".to_string()),
            probe_error: None,
        }),
    );
    assert!(result.summary.contains("openclaw"));
    assert!(!result.actions.is_empty());
}

#[test]
fn extract_json_objects_skips_braces_in_strings() {
    let raw = "x {\"a\":\"}{\"} y {\"b\":{\"c\":1}} } {unclosed";
    let found = extract_json_objects(raw);
    assert_eq!(
        found,
        vec!["{\"a\":\"}{\"}".to_string(), "{\"b\":{\"c\":1}}".to_string()]
    );
    assert!(extract_json_objects("no objects").is_empty());
}

#[test]
fn parse_guidance_json_skips_invalid_candidates() {
    let raw = "{not json} {\"other\":1} {\"summary\":\"  ok  \",\"actions\":[\" a \", 3, \"\", \"b\"]}";
    let parsed = parse_guidance_json(raw).expect("third candidate");
    assert_eq!(parsed.summary, "ok");
    assert_eq!(parsed.actions, vec!["a".to_string(), "b".to_string()]);
    assert!(parse_guidance_json("{\"summary\": 5}").is_none());
    assert!(parse_guidance_json("plain text").is_none());
}

#[test]
fn rules_fallback_branches() {
    let owner = rules_fallback("Unknown field ownerDisplay", "local", "op", None);
    assert!(owner.summary.contains("ownerDisplay"));
    assert_eq!(owner.actions.len(), 2);

    let missing = rules_fallback("OpenClaw: command not found", "local", "op", None);
    assert_eq!(missing.actions.len(), 3);

    let probed = rules_fallback(
        "openclaw not found",
        "remote_ssh",
        "op",
        Some(&OpenclawProbe {
            openclaw_path: Some("/opt/bin/openclaw".to_string()),
            path: None,
            probe_error: None,
        }),
    );
    assert!(probed.summary.contains("/opt/bin/openclaw"));
    assert_eq!(probed.actions.len(), 3);

    let remote = rules_fallback("Connection refused", "remote_ssh", "op", None);
    assert_eq!(remote.actions.len(), 3);

    let generic = rules_fallback("boom", "local", "listAgents", None);
    assert_eq!(
        generic.summary,
        "操作 `listAgents` 在 `local` 环境执行失败，建议先做诊断再继续。"
    );
    assert_eq!(generic.actions.len(), 2);
}

#[test]
fn compose_message_numbers_actions() {
    assert_eq!(compose_message("only", &[]), "only");
    let actions = vec!["first".to_string(), "second".to_string()];
    assert_eq!(
        compose_message("sum", &actions),
        "sum\n\n下一步建议：\n1. first\n2. second"
    );
}

#[test]
fn should_probe_only_remote_missing_openclaw() {
    assert!(should_probe_openclaw("remote_ssh", "OpenClaw: command not found"));
    assert!(!should_probe_openclaw("local", "openclaw: command not found"));
    assert!(!should_probe_openclaw("remote_ssh", "permission denied"));
}

#[test]
fn probe_from_outputs_trims_and_keeps_first_error() {
    let probe = probe_from_outputs(Ok("  /usr/bin/openclaw \n".to_string()), Err("e2".to_string()));
    assert_eq!(probe.openclaw_path, Some("/usr/bin/openclaw".to_string()));
    assert_eq!(probe.path, None);
    assert_eq!(probe.probe_error, Some("e2".to_string()));
    let none = probe_from_outputs(Ok("   ".to_string()), Ok("/bin".to_string()));
    assert_eq!(none.openclaw_path, None);
    assert_eq!(none.path, Some("/bin".to_string()));
    assert_eq!(none.probe_error, None);
}

#[test]
fn guidance_prompt_fills_tokens() {
    let prompt = guidance_prompt("inst-1", "listAgents", "local", "boom", "None", Some("zh-CN".to_string()));
    assert!(prompt.contains("instance_id=inst-1"));
    assert!(prompt.contains("Use Simplified Chinese (简体中文)"));
    assert!(prompt.contains("language=zh-CN"));
    let english = guidance_prompt("i", "o", "t", "e", "p", None);
    assert!(english.contains("Use English"));
    assert!(english.contains("language=en"));
}

#[test]
fn finish_guidance_prefers_agent_answer() {
    let from_agent = finish_guidance(
        Some("{\"summary\":\"s\",\"actions\":[\"a\"]}".to_string()),
        "boom",
        "local",
        "op",
        None,
    );
    assert_eq!(from_agent.source, "zeroclaw");
    assert_eq!(from_agent.message, "s\n\n下一步建议：\n1. a");
    let from_rules = finish_guidance(None, "boom", "local", "op", None);
    assert_eq!(from_rules.source, "rules");
    assert_eq!(from_rules.actions.len(), 2);
}
