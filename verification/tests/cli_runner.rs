use clawpal::cli_runner::{
    cli_output_from_process, discard_queued_commands, list_queued_commands, parse_json_output,
    queue_command, queued_commands_count, remote_command_line, remove_queued_command,
    shell_quote, CliOutput, CommandQueue,
};
use clawpal::json::{JsonNumber, JsonValue};

#[test]
fn shell_quote_escapes_single_quotes() {
    assert_eq!(shell_quote("it's"), "'it'\\''s'");
    assert_eq!(shell_quote(""), "''");
}

#[test]
fn remote_command_line_orders_env_then_args() {
    let env = vec![("A".to_string(), "x y".to_string()), ("B".to_string(), "q'".to_string())];
    assert_eq!(
        remote_command_line(&["status", "--json"], &env),
        "A='x y' B='q'\\''' openclaw 'status' '--json'"
    );
    assert_eq!(remote_command_line(&[], &[]), "openclaw");
}

#[test]
fn cli_output_from_process_trims_and_defaults_code() {
    let out = cli_output_from_process(b"hello \n", b"\xffwarn\n", None);
    assert_eq!(out.stdout, "hello");
    assert_eq!(out.stderr, "\u{fffd}warn");
    assert_eq!(out.exit_code, -1);
    assert_eq!(cli_output_from_process(b"", b"", Some(3)).exit_code, 3);
}

fn output(stdout: &str, stderr: &str, exit_code: i32) -> CliOutput {
    CliOutput { stdout: stdout.to_string(), stderr: stderr.to_string(), exit_code }
}

#[test]
fn parse_json_output_cases() {
    assert_eq!(
        parse_json_output(&output("out", "bad thing", 2)).unwrap_err(),
        "openclaw command failed (2): bad thing"
    );
    assert_eq!(
        parse_json_output(&output("only stdout", "", -1)).unwrap_err(),
        "openclaw command failed (-1): only stdout"
    );
    assert_eq!(
        parse_json_output(&output("no json here", "", 0)).unwrap_err(),
        "No JSON found in output: no json here"
    );
    let v = parse_json_output(&output("log line\n{\"a\": [1, 2]}", "", 0)).unwrap();
    assert_eq!(
        v,
        JsonValue::Object(vec![(
            "a".to_string(),
            JsonValue::Array(vec![
                JsonValue::Number(JsonNumber::PosInt(1)),
                JsonValue::Number(JsonNumber::PosInt(2)),
            ]),
        )])
    );
    let arr = parse_json_output(&output("prefix [1,-2]", "", 0)).unwrap();
    assert_eq!(
        arr,
        JsonValue::Array(vec![
            JsonValue::Number(JsonNumber::PosInt(1)),
            JsonValue::Number(JsonNumber::NegInt(-2)),
        ])
    );
    assert!(parse_json_output(&output("{oops", "", 0)).unwrap_err().starts_with("Failed to parse JSON: "));
}

#[test]
fn parse_json_output_skips_text_before_the_first_brace() {
    let out = output("warn: old key\n{\"ok\":true}", "", 0);
    assert_eq!(
        parse_json_output(&out),
        Ok(JsonValue::Object(vec![("ok".to_string(), JsonValue::Bool(true))]))
    );
    let nested = parse_json_output(&output("{\"x\": {\"s\": \"t\", \"n\": null, \"f\": 1.5}}", "", 0)).unwrap();
    assert_eq!(
        nested,
        JsonValue::Object(vec![(
            "x".to_string(),
            JsonValue::Object(vec![
                ("f".to_string(), JsonValue::Number(JsonNumber::Float("1.5".to_string()))),
                ("n".to_string(), JsonValue::Null),
                ("s".to_string(), JsonValue::Str("t".to_string())),
            ]),
        )])
    );
}

#[test]
fn command_queue_lifecycle() {
    let mut queue = CommandQueue::new();
    assert!(queue.is_empty());
    assert_eq!(
        queue_command(&mut queue, "label".to_string(), vec![]).unwrap_err(),
        "command cannot be empty"
    );
    let first = queue_command(&mut queue, "first".to_string(), vec!["ls".to_string()]).unwrap();
    let second = queue.enqueue("second".to_string(), vec!["pwd".to_string(), "-P".to_string()]);
    assert_eq!(first.id.len(), 36);
    assert_eq!(first.id.as_bytes()[14], b'4');
    assert_ne!(first.id, second.id);
    assert_eq!(queued_commands_count(&queue), Ok(2));
    let listed = list_queued_commands(&queue).unwrap();
    assert_eq!(listed, vec![first.clone(), second.clone()]);
    assert_eq!(remove_queued_command(&mut queue, first.id.clone()), Ok(true));
    assert_eq!(remove_queued_command(&mut queue, first.id.clone()), Ok(false));
    assert_eq!(queue.list(), vec![second.clone()]);
    assert_eq!(discard_queued_commands(&mut queue), Ok(true));
    assert_eq!(queue.len(), 0);
    assert!(CommandQueue::default().is_empty());
}

#[test]
fn enqueue_with_keeps_given_fields() {
    let mut queue = CommandQueue::new();
    let c = queue.enqueue_with(
        "id-1".to_string(),
        "lbl".to_string(),
        vec!["a".to_string()],
        "2024-01-01T00:00:00+00:00".to_string(),
    );
    assert_eq!(c.id, "id-1");
    assert_eq!(c.created_at, "2024-01-01T00:00:00+00:00");
    assert_eq!(queue.list(), vec![c]);
}

#[test]
fn enqueued_id_is_hyphenated_lowercase_hex() {
    let mut queue = CommandQueue::new();
    let cmd = queue.enqueue("label".to_string(), vec!["ls".to_string()]);
    for (k, c) in cmd.id.chars().enumerate() {
        if k == 8 || k == 13 || k == 18 || k == 23 {
            assert_eq!(c, '-');
        } else {
            assert!(c.is_ascii_digit() || ('a'..='f').contains(&c));
        }
    }
    assert_eq!(cmd.id.chars().count(), 36);
}

#[test]
fn parsed_document_reads_nothing_after_delete() {
    let mut doc = parse_json_output(&output("{\"a\": {\"b\": 1, \"c\": 2}}", "", 0)).unwrap();
    assert!(clawpal::doctor::delete_json_path(&mut doc, "a.b"));
    assert_eq!(clawpal::doctor::json_path_get(&doc, "a.b"), None);
    assert_eq!(
        clawpal::doctor::json_path_get(&doc, "a.c"),
        Some(&JsonValue::Number(JsonNumber::PosInt(2)))
    );
}
