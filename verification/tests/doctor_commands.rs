use clawpal::doctor_commands::{
    remote_config_path, remote_doctor_context, tool_result,
    check_not_sensitive, doctor_reject_invoke, instance_or_local, invoke_result_text,
    is_install_domain, parse_clawpal_args, parse_openclaw_args, prepare_approved_invoke,
    register_runtime_events, register_runtime_invoke, take_zeroclaw_invoke,
    validate_not_sensitive, zeroclaw_failure_message, ClawpalRequest, InvokeTool,
    PendingInvokes, accept_runtime_events, deliver_agent_outcome, local_doctor_context,
    probe_tool_result,
};
use clawpal::agent_fallback::OpenclawProbe;
use clawpal::json::{JsonNumber, JsonValue};
use clawpal::runtime::{RuntimeError, RuntimeEvent};

fn obj(members: Vec<(&str, JsonValue)>) -> JsonValue {
    JsonValue::Object(members.into_iter().map(|(k, v)| (k.to_string(), v)).collect())
}

fn s(text: &str) -> JsonValue {
    JsonValue::Str(text.to_string())
}

#[test]
fn register_then_take_returns_payload_once() {
    let mut store = PendingInvokes::new();
    let event = RuntimeEvent::Invoke {
        payload: obj(vec![("id", s("inv-1")), ("command", s("clawpal"))]),
    };
    register_runtime_invoke(&mut store, &event);
    register_runtime_invoke(&mut store, &RuntimeEvent::Status { text: "x".to_string() });
    let expected = obj(vec![("id", s("inv-1")), ("command", s("clawpal"))]);
    assert_eq!(take_zeroclaw_invoke(&mut store, "inv-1"), Some(expected));
    assert_eq!(take_zeroclaw_invoke(&mut store, "inv-1"), None);
}

#[test]
fn invoke_without_string_id_is_not_kept() {
    let mut store = PendingInvokes::new();
    let events = vec![
        RuntimeEvent::Invoke { payload: obj(vec![("id", JsonValue::Number(JsonNumber::PosInt(1)))]) },
        RuntimeEvent::Invoke { payload: obj(vec![("id", s("b"))]) },
    ];
    register_runtime_events(&mut store, &events);
    assert_eq!(take_zeroclaw_invoke(&mut store, "1"), None);
    assert!(take_zeroclaw_invoke(&mut store, "b").is_some());
}

#[test]
fn register_events_keeps_last_payload_per_id() {
    let mut store = PendingInvokes::new();
    register_runtime_invoke(&mut store, &RuntimeEvent::Invoke { payload: obj(vec![("id", s("old"))]) });
    let events = vec![
        RuntimeEvent::Invoke { payload: obj(vec![("id", s("a")), ("command", s("first"))]) },
        RuntimeEvent::Status { text: "thinking".to_string() },
        RuntimeEvent::Invoke { payload: obj(vec![("id", s("a")), ("command", s("second"))]) },
    ];
    register_runtime_events(&mut store, &events);
    assert_eq!(
        take_zeroclaw_invoke(&mut store, "a"),
        Some(obj(vec![("id", s("a")), ("command", s("second"))]))
    );
    assert_eq!(take_zeroclaw_invoke(&mut store, "old"), Some(obj(vec![("id", s("old"))])));
}

#[test]
fn reject_invoke_cases() {
    let mut store = PendingInvokes::new();
    register_runtime_invoke(&mut store, &RuntimeEvent::Invoke { payload: obj(vec![("id", s("a"))]) });
    assert_eq!(doctor_reject_invoke(&mut store, "a".to_string(), "no".to_string()), Ok(()));
    assert_eq!(
        doctor_reject_invoke(&mut store, "a".to_string(), "no".to_string()),
        Err("No pending invoke with id: a".to_string())
    );
}

#[test]
fn prepare_approved_invoke_cases() {
    let mut store = PendingInvokes::new();
    register_runtime_invoke(
        &mut store,
        &RuntimeEvent::Invoke {
            payload: obj(vec![("id", s("1")), ("command", s("openclaw")), ("args", obj(vec![("args", s("status"))]))]),
        },
    );
    register_runtime_invoke(&mut store, &RuntimeEvent::Invoke { payload: obj(vec![("id", s("2")), ("command", s("rm"))]) });
    let ok = prepare_approved_invoke(&mut store, "1").unwrap();
    assert_eq!(ok.tool, InvokeTool::Openclaw);
    assert_eq!(ok.command, "openclaw");
    assert_eq!(ok.args, obj(vec![("args", s("status"))]));
    assert_eq!(
        prepare_approved_invoke(&mut store, "2").unwrap_err(),
        "unsupported tool 'rm', expected 'clawpal' or 'openclaw'"
    );
    assert_eq!(
        prepare_approved_invoke(&mut store, "2").unwrap_err(),
        "No pending invoke with id: 2"
    );
}

#[test]
fn invoke_result_text_formats() {
    let result = obj(vec![
        ("stdout", s("out")),
        ("stderr", s("")),
        ("exitCode", JsonValue::Number(JsonNumber::PosInt(0))),
    ]);
    assert_eq!(
        invoke_result_text("openclaw", &result),
        "[Command executed: `openclaw`]\nstdout:\n```\nout\n```\nexitCode: 0"
    );
    let failing = obj(vec![("stdout", s("")), ("stderr", s("bad"))]);
    assert_eq!(
        invoke_result_text("c", &failing),
        "[Command executed: `c`]\nstderr:\n```\nbad\n```\nexitCode: -1"
    );
    assert_eq!(
        invoke_result_text("c", &s("x")),
        "[Command executed: `c`]\nResult: \"x\""
    );
    let listing = obj(vec![("items", JsonValue::Array(vec![s("a"), JsonValue::Number(JsonNumber::NegInt(-3))]))]);
    assert_eq!(
        invoke_result_text("c", &listing),
        "[Command executed: `c`]\nResult: {\"items\":[\"a\",-3]}"
    );
}

#[test]
fn clawpal_args_parse() {
    let a = |t: &str| obj(vec![("args", s(t))]);
    assert_eq!(parse_clawpal_args(&a(" instance list ")), Ok(ClawpalRequest::InstanceList));
    assert_eq!(parse_clawpal_args(&a("ssh list")), Ok(ClawpalRequest::SshList));
    assert_eq!(parse_clawpal_args(&a("profile list")), Ok(ClawpalRequest::ProfileList));
    assert_eq!(parse_clawpal_args(&a("health check --all")), Ok(ClawpalRequest::HealthCheckAll));
    assert_eq!(
        parse_clawpal_args(&a("health check  vm1")),
        Ok(ClawpalRequest::HealthCheck("vm1".to_string()))
    );
    assert_eq!(
        parse_clawpal_args(&a("health check")),
        Ok(ClawpalRequest::HealthCheck("local".to_string()))
    );
    assert_eq!(parse_clawpal_args(&obj(vec![])), Err("clawpal: missing args".to_string()));
    assert_eq!(
        parse_clawpal_args(&a("doctor probe")),
        Err("unsupported clawpal args: doctor probe".to_string())
    );
}

#[test]
fn clawpal_doctor_subcommands_from_the_prompt_are_supported() {
    let a = |t: &str| obj(vec![("args", s(t))]);
    assert_eq!(
        parse_clawpal_args(&a("doctor probe-openclaw")),
        Ok(ClawpalRequest::DoctorProbeOpenclaw)
    );
    assert_eq!(
        parse_clawpal_args(&a(" doctor fix-openclaw-path ")),
        Ok(ClawpalRequest::DoctorFixOpenclawPath)
    );
}

#[test]
fn probe_tool_result_reports_the_probe() {
    let probe = OpenclawProbe {
        openclaw_path: Some("/usr/local/bin/openclaw".to_string()),
        path: Some("/usr/bin:/bin".to_string()),
        probe_error: None,
    };
    assert_eq!(
        probe_tool_result(&probe),
        obj(vec![
            ("stdout", s("{\"openclawPath\":\"/usr/local/bin/openclaw\",\"path\":\"/usr/bin:/bin\",\"probeError\":null}")),
            ("stderr", s("")),
            ("exitCode", JsonValue::Number(JsonNumber::PosInt(0))),
        ])
    );
}

#[test]
fn accept_runtime_events_keeps_invokes_and_lists_emissions() {
    let mut store = PendingInvokes::new();
    let events = vec![
        RuntimeEvent::ChatDelta { text: "hi".to_string() },
        RuntimeEvent::Invoke { payload: obj(vec![("id", s("q1")), ("command", s("openclaw"))]) },
    ];
    let emitted = accept_runtime_events(&mut store, events);
    assert_eq!(emitted.len(), 2);
    assert_eq!(emitted[0], ("doctor:chat-delta", obj(vec![("text", s("hi"))])));
    assert_eq!(
        emitted[1],
        ("doctor:invoke", obj(vec![("id", s("q1")), ("command", s("openclaw"))]))
    );
    assert!(take_zeroclaw_invoke(&mut store, "q1").is_some());
}

#[test]
fn deliver_agent_outcome_reports_errors() {
    let mut store = PendingInvokes::new();
    let error = RuntimeError {
        code: "E42".to_string(),
        message: "down".to_string(),
        action_hint: None,
    };
    let (emitted, result) = deliver_agent_outcome(&mut store, Err(error), "send");
    assert_eq!(result, Err("zeroclaw send failed [E42]".to_string()));
    assert_eq!(emitted.len(), 1);
    assert_eq!(
        emitted[0],
        (
            "doctor:error",
            obj(vec![("code", s("E42")), ("message", s("down")), ("actionHint", JsonValue::Null)])
        )
    );
    let (emitted, result) = deliver_agent_outcome(&mut store, Ok(vec![]), "start");
    assert!(emitted.is_empty());
    assert_eq!(result, Ok(()));
}

#[test]
fn local_doctor_context_fills_fallbacks() {
    let issues = vec![("cfg".to_string(), "warn".to_string(), "bad key".to_string())];
    let ctx = local_doctor_context(None, "/h/.openclaw/openclaw.json", None, false, 70, &issues, true, None, "linux", "x86_64");
    assert_eq!(
        ctx,
        obj(vec![
            ("openclawVersion", s("unknown")),
            ("configPath", s("/h/.openclaw/openclaw.json")),
            ("configContent", s("(unable to read config)")),
            (
                "doctorReport",
                obj(vec![
                    ("ok", JsonValue::Bool(false)),
                    ("score", JsonValue::Number(JsonNumber::PosInt(70))),
                    (
                        "issues",
                        JsonValue::Array(vec![obj(vec![
                            ("id", s("cfg")),
                            ("severity", s("warn")),
                            ("message", s("bad key")),
                        ])]),
                    ),
                ]),
            ),
            ("gatewayProcessRunning", JsonValue::Bool(true)),
            ("errorLog", s("")),
            ("platform", s("linux")),
            ("arch", s("x86_64")),
        ])
    );
    let ctx2 = local_doctor_context(Some(" 1.2.3\n".to_string()), "p", Some("{}".to_string()), true, 100, &vec![], false, Some("e".to_string()), "macos", "aarch64");
    if let JsonValue::Object(e) = ctx2 {
        assert_eq!(e[0].1, s("1.2.3"));
        assert_eq!(e[2].1, s("{}"));
        assert_eq!(e[5].1, s("e"));
    } else {
        panic!("not an object");
    }
}

#[test]
fn openclaw_args_parse() {
    let a = obj(vec![("args", s("  gateway   status "))]);
    assert_eq!(
        parse_openclaw_args(&a, "local"),
        Ok(vec!["gateway".to_string(), "status".to_string()])
    );
    assert_eq!(
        parse_openclaw_args(&a, "vm1"),
        Err("openclaw tool currently supports local target only".to_string())
    );
    assert_eq!(
        parse_openclaw_args(&obj(vec![("args", s("  "))]), "local"),
        Err("openclaw: missing args".to_string())
    );
}

#[test]
fn sensitive_paths_are_blocked() {
    assert_eq!(check_not_sensitive("/srv/app.json", "/srv/app.json"), Ok(()));
    assert_eq!(
        check_not_sensitive("~/.ssh/id_rsa", "/home/u/.ssh/id_rsa"),
        Err("Access to ~/.ssh/id_rsa is blocked — matches sensitive path pattern: /.ssh/".to_string())
    );
    assert_eq!(
        validate_not_sensitive("/etc/shadow"),
        Err("Access to /etc/shadow is blocked — matches sensitive path pattern: /etc/shadow".to_string())
    );
    assert!(validate_not_sensitive("/tmp/openclaw.json").is_ok());
}

#[test]
fn small_decisions() {
    assert_eq!(instance_or_local(None), "local");
    assert_eq!(instance_or_local(Some("vm".to_string())), "vm");
    assert_eq!(zeroclaw_failure_message("start", "E1"), "zeroclaw start failed [E1]");
    assert!(is_install_domain(Some("install")));
    assert!(!is_install_domain(Some("doctor")));
    assert!(!is_install_domain(None));
}

#[test]
fn tool_result_and_remote_context() {
    assert_eq!(
        tool_result("out", "", -2),
        obj(vec![
            ("stdout", s("out")),
            ("stderr", s("")),
            ("exitCode", JsonValue::Number(JsonNumber::NegInt(-2))),
        ])
    );
    assert_eq!(remote_config_path("  /srv/openclaw.json \n"), Ok("/srv/openclaw.json".to_string()));
    assert!(remote_config_path("/home/u/.aws/credentials").is_err());
    let ctx = remote_doctor_context(" v1 \n", "/p", "{}", " running\n", true, "log", " Linux\n", " x86_64 ", "h1");
    assert_eq!(ctx.get("openclawVersion"), Some(&s("v1")));
    assert_eq!(ctx.get("platform"), Some(&s("linux")));
    assert_eq!(ctx.get("arch"), Some(&s("x86_64")));
    assert_eq!(ctx.get("gatewayStatus"), Some(&s("running")));
    assert_eq!(ctx.get("remote"), Some(&JsonValue::Bool(true)));
    assert_eq!(ctx.get("hostId"), Some(&s("h1")));
}
