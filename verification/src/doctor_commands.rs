//! The doctor's decisions around tool invocations: the invocations waiting for
//! the user's approval, what an approved one asks for, the text fed back to
//! the agent, and the paths it may never touch.
use vstd::prelude::*;

use crate::json::{
    copy_json, find_key, json_eq, json_text, json_text_of, key_index, lemma_key_index, member,
    JsonValue,
};
use crate::agent_fallback::{is_probe_document, probe_document, OpenclawProbe};
use crate::runtime::{is_event_message, runtime_event_message, RuntimeError, RuntimeEvent};
use crate::text::{
    chars_of, concat2, concat3, contains_seq, i64_to_string, occurs_at, owned, signed_decimal,
    split_whitespace_str, starts_with_seq, str_contains, str_eq, str_starts_with, strings_view,
    trim, trim_str, words,
};

verus! {

broadcast use vstd::string::group_string_axioms;

// ---------------------------------------------------------------------------
// Invocations waiting for approval
// ---------------------------------------------------------------------------

/// The tool invocations that wait for the user's approval, by id.
pub struct PendingInvokes {
    invokes: Vec<(String, JsonValue)>,
}

impl PendingInvokes {
    /// The payload waiting under `id`, if any.
    pub closed spec fn pending(self, id: Seq<char>) -> Option<JsonValue> {
        let i = key_index(self.invokes@, id, 0);
        if i < 0 {
            None
        } else {
            Some(self.invokes@[i].1)
        }
    }

    /// No id is stored twice.
    pub closed spec fn wf(self) -> bool {
        forall|a: int, b: int|
            0 <= a < self.invokes@.len() && 0 <= b < self.invokes@.len() && #[trigger] self.invokes@[a].0@
                == #[trigger] self.invokes@[b].0@ ==> a == b
    }

    /// No invocation waits.
    pub fn new() -> (s: Self)
        ensures
            s.wf(),
            forall|id: Seq<char>| #[trigger] s.pending(id) is None,
    {
        PendingInvokes { invokes: Vec::new() }
    }

    /// Stores `payload` under `id`, replacing what was there.
    pub fn insert(&mut self, id: String, payload: JsonValue)
        requires
            old(self).wf(),
        ensures
            final(self).wf(),
            final(self).pending(id@) == Some(payload),
            forall|k: Seq<char>| k != id@ ==> #[trigger] final(self).pending(k) == old(self).pending(k),
    {
        let ghost oe = self.invokes@;
        let ghost key = id@;
        let ghost p = payload;
        proof {
            lemma_key_index(oe, key, 0);
        }
        match find_key(&self.invokes, id.as_str()) {
            Some(i) => {
                let (k, _previous) = self.invokes.remove(i);
                self.invokes.insert(i, (k, payload));
                let ghost ne = self.invokes@;
                assert(ne =~= oe.update(i as int, (oe[i as int].0, payload)));
                assert forall|j: int| 0 <= j < ne.len() implies ne[j].0@ == oe[j].0@ by {}
                proof {
                    crate::json::lemma_key_index_same_keys(oe, ne, key, 0);
                }
                assert(ne[i as int].1 == p);
                assert forall|k2: Seq<char>| k2 != key implies #[trigger] self.pending(k2) == old(self).pending(k2) by {
                    crate::json::lemma_key_index_same_keys(oe, ne, k2, 0);
                    lemma_key_index(oe, k2, 0);
                }
            },
            None => {
                self.invokes.push((id, payload));
                let ghost ne = self.invokes@;
                assert(ne.take(oe.len() as int) =~= oe);
                proof {
                    lemma_key_index(ne, key, 0);
                    let r = key_index(ne, key, 0);
                    assert(ne[oe.len() as int].0@ == key && ne[oe.len() as int].1 == p);
                    if 0 <= r < oe.len() {
                        assert(ne[r] == oe[r]);
                    }
                }
                assert forall|k2: Seq<char>| k2 != key implies #[trigger] self.pending(k2) == old(self).pending(k2) by {
                    lemma_key_index(oe, k2, 0);
                    lemma_key_index(ne, k2, 0);
                    let a = key_index(oe, k2, 0);
                    let b = key_index(ne, k2, 0);
                    if 0 <= b < oe.len() {
                        assert(ne[b] == oe[b]);
                    }
                    if a >= 0 {
                        assert(ne[a] == oe[a]);
                    }
                }
                assert forall|a: int, b: int|
                    0 <= a < ne.len() && 0 <= b < ne.len() && #[trigger] ne[a].0@ == #[trigger] ne[b].0@ implies a == b by {
                    if a < oe.len() && b < oe.len() {
                        assert(ne[a] == oe[a] && ne[b] == oe[b]);
                    } else if a < oe.len() {
                        assert(ne[a] == oe[a]);
                    } else if b < oe.len() {
                        assert(ne[b] == oe[b]);
                    }
                }
            },
        }
    }

    /// Removes and returns what waits under `id`.
    pub fn take(&mut self, id: &str) -> (r: Option<JsonValue>)
        requires
            old(self).wf(),
        ensures
            final(self).wf(),
            r == old(self).pending(id@),
            final(self).pending(id@) is None,
            forall|k: Seq<char>| k != id@ ==> #[trigger] final(self).pending(k) == old(self).pending(k),
    {
        let ghost oe = self.invokes@;
        let ghost key = id@;
        proof {
            lemma_key_index(oe, key, 0);
        }
        match find_key(&self.invokes, id) {
            None => None,
            Some(i) => {
                let (_k, payload) = self.invokes.remove(i);
                let ghost ne = self.invokes@;
                assert(ne =~= oe.remove(i as int));
                proof {
                    lemma_key_index(ne, key, 0);
                    let r = key_index(ne, key, 0);
                    if r >= 0 {
                        if r < i {
                            assert(ne[r] == oe[r]);
                        } else {
                            assert(ne[r] == oe[r + 1]);
                        }
                    }
                }
                assert forall|k2: Seq<char>| k2 != key implies #[trigger] self.pending(k2) == old(self).pending(k2) by {
                    lemma_key_index(oe, k2, 0);
                    lemma_key_index(ne, k2, 0);
                    let a = key_index(oe, k2, 0);
                    let b = key_index(ne, k2, 0);
                    if b >= 0 {
                        if b < i {
                            assert(ne[b] == oe[b]);
                        } else {
                            assert(ne[b] == oe[b + 1]);
                        }
                    }
                    if a >= 0 {
                        if a < i {
                            assert(ne[a] == oe[a]);
                        } else if a > i {
                            assert(ne[a - 1] == oe[a]);
                        }
                    }
                }
                assert forall|a: int, b: int|
                    0 <= a < ne.len() && 0 <= b < ne.len() && #[trigger] ne[a].0@ == #[trigger] ne[b].0@ implies a == b by {
                    let a2 = if a < i { a } else { a + 1 };
                    let b2 = if b < i { b } else { b + 1 };
                    assert(ne[a] == oe[a2]);
                    assert(ne[b] == oe[b2]);
                }
                Some(payload)
            },
        }
    }
}

/// The id of an invocation event: its payload's `id` member, when a string.
pub open spec fn invoke_id(event: RuntimeEvent) -> Option<Seq<char>> {
    match event {
        RuntimeEvent::Invoke { payload } => match member(payload, "id"@) {
            Some(JsonValue::Str(id)) => Some(id@),
            _ => None,
        },
        _ => None,
    }
}

/// Keeps an invocation event for approval under its id; other events, and
/// invocations without a string id, change nothing.
pub fn register_runtime_invoke(store: &mut PendingInvokes, event: &RuntimeEvent)
    requires
        old(store).wf(),
    ensures
        final(store).wf(),
        match invoke_id(*event) {
            Some(id) => {
                &&& final(store).pending(id) matches Some(p) && (*event matches RuntimeEvent::Invoke {
                    payload,
                } && json_eq(p, payload))
                &&& forall|k: Seq<char>| k != id ==> #[trigger] final(store).pending(k) == old(
                    store,
                ).pending(k)
            },
            None => forall|k: Seq<char>| #[trigger] final(store).pending(k) == old(store).pending(k),
        },
{
    if let RuntimeEvent::Invoke { payload } = event {
        if let Some(idv) = payload.get("id") {
            if let Some(id) = idv.as_str() {
                store.insert(owned(id), copy_json(payload));
            }
        }
    }
}

/// Removes and returns the invocation waiting under `invoke_id`.
pub fn take_zeroclaw_invoke(store: &mut PendingInvokes, invoke_id: &str) -> (r: Option<JsonValue>)
    requires
        old(store).wf(),
    ensures
        final(store).wf(),
        r == old(store).pending(invoke_id@),
        final(store).pending(invoke_id@) is None,
        forall|k: Seq<char>| k != invoke_id@ ==> #[trigger] final(store).pending(k) == old(store).pending(k),
{
    store.take(invoke_id)
}

/// The message for an id with nothing waiting.
pub open spec fn no_pending_message(id: Seq<char>) -> Seq<char> {
    "No pending invoke with id: "@ + id
}

/// Drops the invocation waiting under `invoke_id`; an error when none waits.
pub fn doctor_reject_invoke(store: &mut PendingInvokes, invoke_id: String, _reason: String) -> (r: Result<(), String>)
    requires
        old(store).wf(),
    ensures
        final(store).wf(),
        old(store).pending(invoke_id@) is Some ==> r is Ok,
        old(store).pending(invoke_id@) is None ==> (r matches Err(e) && e@ == no_pending_message(invoke_id@)),
        final(store).pending(invoke_id@) is None,
        forall|k: Seq<char>| k != invoke_id@ ==> #[trigger] final(store).pending(k) == old(store).pending(k),
{
    if store.take(invoke_id.as_str()).is_some() {
        return Ok(());
    }
    Err(concat2("No pending invoke with id: ", invoke_id.as_str()))
}

/// A registered invocation is what taking its id gives back, and nothing
/// waits under that id afterwards: `registered` is a store right after
/// `register_runtime_invoke(event)`, `taken` right after `take(id)` on it,
/// which returned `r`.
pub proof fn law_take_after_register(
    registered: PendingInvokes,
    taken: PendingInvokes,
    event: RuntimeEvent,
    r: Option<JsonValue>,
)
    requires
        invoke_id(event) is Some,
        registered.pending(invoke_id(event)->0) matches Some(p) && (event matches RuntimeEvent::Invoke {
            payload,
        } && json_eq(p, payload)),
        r == registered.pending(invoke_id(event)->0),
        taken.pending(invoke_id(event)->0) is None,
    ensures
        r matches Some(q) && (event matches RuntimeEvent::Invoke { payload } && json_eq(q, payload)),
        taken.pending(invoke_id(event)->0) is None,
{
}

/// The session's target instance, `local` by default.
pub fn instance_or_local(instance_id: Option<String>) -> (r: String)
    ensures
        r@ == match instance_id {
            Some(i) => i@,
            None => "local"@,
        },
{
    match instance_id {
        Some(i) => i,
        None => owned("local"),
    }
}

/// The error of a failed agent call: `zeroclaw <verb> failed [<code>]`.
pub fn zeroclaw_failure_message(verb: &str, code: &str) -> (r: String)
    ensures
        r@ == "zeroclaw "@ + verb@ + " failed ["@ + code@ + "]"@,
{
    let mut msg = concat3("zeroclaw ", verb, " failed [");
    msg.append(code);
    msg.append("]");
    msg
}

/// The index of the last event among the first `n` of `events` that is an
/// invocation with id `k`; -1 when there is none.
pub open spec fn last_invoke_index(events: Seq<RuntimeEvent>, k: Seq<char>, n: int) -> int
    decreases n,
{
    if n <= 0 {
        -1
    } else if invoke_id(events[n - 1]) == Some(k) {
        n - 1
    } else {
        last_invoke_index(events, k, n - 1)
    }
}

/// `p` holds the payload of the invocation `event`.
pub open spec fn holds_payload(p: Option<JsonValue>, event: RuntimeEvent) -> bool {
    p matches Some(q) && (event matches RuntimeEvent::Invoke { payload } && json_eq(q, payload))
}

/// Keeps every invocation among `events` for approval, in order: under each
/// id waits the payload of the last invocation with that id, and ids that no
/// invocation carries keep what waited under them.
pub fn register_runtime_events(store: &mut PendingInvokes, events: &Vec<RuntimeEvent>)
    requires
        old(store).wf(),
    ensures
        final(store).wf(),
        forall|k: Seq<char>| {
            let j = last_invoke_index(events@, k, events@.len() as int);
            &&& j < 0 ==> #[trigger] final(store).pending(k) == old(store).pending(k)
            &&& j >= 0 ==> holds_payload(final(store).pending(k), events@[j])
        },
{
    let mut i: usize = 0;
    while i < events.len()
        invariant
            i <= events@.len(),
            store.wf(),
            forall|k: Seq<char>| {
                let j = last_invoke_index(events@, k, i as int);
                &&& j < 0 ==> #[trigger] store.pending(k) == old(store).pending(k)
                &&& j >= 0 ==> holds_payload(store.pending(k), events@[j])
            },
        decreases events@.len() - i,
    {
        register_runtime_invoke(store, &events[i]);
        assert forall|k: Seq<char>| {
            let j = last_invoke_index(events@, k, i + 1);
            &&& j < 0 ==> #[trigger] store.pending(k) == old(store).pending(k)
            &&& j >= 0 ==> holds_payload(store.pending(k), events@[j])
        } by {
            assert(last_invoke_index(events@, k, i + 1) == if invoke_id(events@[i as int]) == Some(k) {
                i as int
            } else {
                last_invoke_index(events@, k, i as int)
            });
        }
        i = i + 1;
    }
}

/// Takes in the events an agent answered with: every invocation among them is
/// kept for approval, as `register_runtime_events` keeps them, and the result
/// holds, for each event in order, the name and payload to emit for it.
pub fn accept_runtime_events(store: &mut PendingInvokes, events: Vec<RuntimeEvent>) -> (r: Vec<(&'static str, JsonValue)>)
    requires
        old(store).wf(),
    ensures
        final(store).wf(),
        forall|k: Seq<char>| {
            let j = last_invoke_index(events@, k, events@.len() as int);
            &&& j < 0 ==> #[trigger] final(store).pending(k) == old(store).pending(k)
            &&& j >= 0 ==> holds_payload(final(store).pending(k), events@[j])
        },
        r@.len() == events@.len(),
        forall|i: int| 0 <= i < events@.len() ==> is_event_message(#[trigger] r@[i], events@[i]),
{
    register_runtime_events(store, &events);
    let ghost all = events@;
    let mut rest = events;
    let mut out: Vec<(&'static str, JsonValue)> = Vec::new();
    while rest.len() > 0
        invariant
            out@.len() + rest@.len() == all.len(),
            rest@ == all.subrange(out@.len() as int, all.len() as int),
            forall|i: int| 0 <= i < out@.len() ==> is_event_message(#[trigger] out@[i], all[i]),
        decreases rest@.len(),
    {
        let ghost n = out@.len();
        let ev = rest.remove(0);
        assert(ev == all[n as int]);
        out.push(runtime_event_message(ev));
        assert(rest@ =~= all.subrange(out@.len() as int, all.len() as int));
    }
    out
}

/// What an agent's answer to a start or a send comes to: on success, the
/// events taken in (see `accept_runtime_events`) and `Ok`; on the agent's
/// error, that error emitted as an error event, nothing kept, and the failure
/// `zeroclaw <verb> failed [<code>]`.
pub fn deliver_agent_outcome(
    store: &mut PendingInvokes,
    outcome: Result<Vec<RuntimeEvent>, RuntimeError>,
    verb: &str,
) -> (r: (Vec<(&'static str, JsonValue)>, Result<(), String>))
    requires
        old(store).wf(),
    ensures
        final(store).wf(),
        match outcome {
            Ok(events) => {
                &&& forall|k: Seq<char>| {
                    let j = last_invoke_index(events@, k, events@.len() as int);
                    &&& j < 0 ==> #[trigger] final(store).pending(k) == old(store).pending(k)
                    &&& j >= 0 ==> holds_payload(final(store).pending(k), events@[j])
                }
                &&& r.0@.len() == events@.len()
                &&& forall|i: int| 0 <= i < events@.len() ==> is_event_message(#[trigger] r.0@[i], events@[i])
                &&& r.1 is Ok
            },
            Err(error) => {
                &&& *final(store) == *old(store)
                &&& r.0@.len() == 1
                &&& is_event_message(r.0@[0], RuntimeEvent::Error { error })
                &&& r.1 matches Err(m) && m@ == "zeroclaw "@ + verb@ + " failed ["@ + error.code@ + "]"@
            },
        },
{
    match outcome {
        Ok(events) => {
            let emitted = accept_runtime_events(store, events);
            (emitted, Ok(()))
        },
        Err(error) => {
            let message = zeroclaw_failure_message(verb, error.code.as_str());
            let mut emitted: Vec<(&'static str, JsonValue)> = Vec::new();
            emitted.push(runtime_event_message(RuntimeEvent::Error { error }));
            (emitted, Err(message))
        },
    }
}

// ---------------------------------------------------------------------------
// Approved invocations
// ---------------------------------------------------------------------------

/// The tools an invocation may call.
#[derive(Debug, Clone, Copy, PartialEq, Eq)]
pub enum InvokeTool {
    Clawpal,
    Openclaw,
}

/// An approved invocation: its tool, the command name and the arguments.
#[derive(Debug)]
pub struct ApprovedInvoke {
    pub tool: InvokeTool,
    pub command: String,
    pub args: JsonValue,
}

/// The command named by an invocation: its `command` member when a string,
/// otherwise empty.
pub open spec fn invoke_command(invoke: JsonValue) -> Seq<char> {
    match member(invoke, "command"@) {
        Some(JsonValue::Str(c)) => c@,
        _ => Seq::empty(),
    }
}

/// The message for an unsupported tool.
pub open spec fn unsupported_tool_message(command: Seq<char>) -> Seq<char> {
    "unsupported tool '"@ + command + "', expected 'clawpal' or 'openclaw'"@
}

/// Takes the approved invocation `invoke_id` and reads what it asks for: an
/// error when nothing waits under that id or its tool is neither `clawpal`
/// nor `openclaw` (it is taken all the same).
pub fn prepare_approved_invoke(store: &mut PendingInvokes, invoke_id: &str) -> (r: Result<ApprovedInvoke, String>)
    requires
        old(store).wf(),
    ensures
        final(store).wf(),
        final(store).pending(invoke_id@) is None,
        forall|k: Seq<char>| k != invoke_id@ ==> #[trigger] final(store).pending(k) == old(store).pending(k),
        match old(store).pending(invoke_id@) {
            None => r matches Err(e) && e@ == no_pending_message(invoke_id@),
            Some(invoke) => {
                let command = invoke_command(invoke);
                if command == "clawpal"@ || command == "openclaw"@ {
                    &&& r matches Ok(a)
                    &&& a.command@ == command
                    &&& a.tool == (if command == "clawpal"@ {
                        InvokeTool::Clawpal
                    } else {
                        InvokeTool::Openclaw
                    })
                    &&& match member(invoke, "args"@) {
                        Some(args) => json_eq(a.args, args),
                        None => a.args is Null,
                    }
                } else {
                    r matches Err(e) && e@ == unsupported_tool_message(command)
                }
            },
        },
{
    let invoke = match store.take(invoke_id) {
        Some(v) => v,
        None => {
            return Err(concat2("No pending invoke with id: ", invoke_id));
        },
    };
    let command = match invoke.get("command") {
        Some(c) => match c.as_str() {
            Some(s) => owned(s),
            None => String::new(),
        },
        None => String::new(),
    };
    let args = match invoke.get("args") {
        Some(a) => copy_json(a),
        None => JsonValue::Null,
    };
    let tool = if str_eq(command.as_str(), "clawpal") {
        InvokeTool::Clawpal
    } else if str_eq(command.as_str(), "openclaw") {
        InvokeTool::Openclaw
    } else {
        return Err(concat3("unsupported tool '", command.as_str(), "', expected 'clawpal' or 'openclaw'"));
    };
    Ok(ApprovedInvoke { tool, command, args })
}

/// Whether an approval belongs to the install domain.
pub fn is_install_domain(domain: Option<&str>) -> (r: bool)
    ensures
        r == (domain matches Some(d) && d@ == "install"@),
{
    match domain {
        Some(d) => str_eq(d, "install"),
        None => false,
    }
}

/// The string member `key`, or empty.
pub open spec fn str_member_or_empty(v: JsonValue, key: Seq<char>) -> Seq<char> {
    match member(v, key) {
        Some(JsonValue::Str(s)) => s@,
        _ => Seq::empty(),
    }
}

/// The exit code member as an `i64`, or -1.
pub open spec fn exit_code_or_default(v: JsonValue) -> int {
    match member(v, "exitCode"@) {
        Some(JsonValue::Number(crate::json::JsonNumber::PosInt(u))) => if u <= i64::MAX {
            u as int
        } else {
            -1
        },
        Some(JsonValue::Number(crate::json::JsonNumber::NegInt(n))) => n as int,
        _ => -1,
    }
}

/// The text that reports a tool result back to the agent: the command, then
/// its non-empty stdout and stderr in fenced blocks and its exit code, when
/// the result has a string `stdout`; otherwise the command and the result
/// written as JSON text.
pub open spec fn result_text(command: Seq<char>, result: JsonValue) -> Seq<char> {
    let head = "[Command executed: `"@ + command + "`]\n"@;
    match member(result, "stdout"@) {
        Some(JsonValue::Str(stdout)) => {
            let stderr = str_member_or_empty(result, "stderr"@);
            head + (if stdout@.len() > 0 {
                "stdout:\n```\n"@ + stdout@ + "\n```\n"@
            } else {
                Seq::empty()
            }) + (if stderr.len() > 0 {
                "stderr:\n```\n"@ + stderr + "\n```\n"@
            } else {
                Seq::empty()
            }) + "exitCode: "@ + signed_decimal(exit_code_or_default(result))
        },
        _ => head + "Result: "@ + json_text_of(result),
    }
}

/// The report of a result with string `stdout` and `stderr` opens with the
/// command, then holds the stdout block when stdout is not empty, then, on
/// its own and whatever stdout held, the stderr block when stderr is not
/// empty, and ends with the exit code line; nothing else stands between.
pub proof fn law_result_text_reports_both_streams(
    command: Seq<char>,
    result: JsonValue,
    stdout: Seq<char>,
    stderr: Seq<char>,
)
    requires
        member(result, "stdout"@) matches Some(JsonValue::Str(o)) && o@ == stdout,
        member(result, "stderr"@) matches Some(JsonValue::Str(e)) && e@ == stderr,
    ensures
        ({
            let t = result_text(command, result);
            let head = "[Command executed: `"@ + command + "`]\n"@;
            let out_block = "stdout:\n```\n"@ + stdout + "\n```\n"@;
            let err_block = "stderr:\n```\n"@ + stderr + "\n```\n"@;
            let exit_line = "exitCode: "@ + signed_decimal(exit_code_or_default(result));
            let err_at: int = head.len() + if stdout.len() > 0 { out_block.len() as int } else { 0 };
            let exit_at: int = err_at + if stderr.len() > 0 { err_block.len() as int } else { 0 };
            &&& starts_with_seq(t, head)
            &&& stdout.len() > 0 ==> occurs_at(t, out_block, head.len() as int) && contains_seq(t, out_block)
            &&& stderr.len() > 0 ==> occurs_at(t, err_block, err_at) && contains_seq(t, err_block)
            &&& t.len() == exit_at + exit_line.len()
            &&& occurs_at(t, exit_line, exit_at)
        }),
{
    let t = result_text(command, result);
    let head = "[Command executed: `"@ + command + "`]\n"@;
    let out_block = "stdout:\n```\n"@ + stdout + "\n```\n"@;
    let err_block = "stderr:\n```\n"@ + stderr + "\n```\n"@;
    let exit_line = "exitCode: "@ + signed_decimal(exit_code_or_default(result));
    let x = if stdout.len() > 0 { out_block } else { Seq::<char>::empty() };
    let y = if stderr.len() > 0 { err_block } else { Seq::<char>::empty() };
    assert(str_member_or_empty(result, "stderr"@) == stderr);
    assert(t == head + x + y + exit_line);
    let err_at: int = head.len() + x.len() as int;
    let exit_at: int = err_at + y.len();
    assert(t.subrange(0, head.len() as int) =~= head);
    assert(t.subrange(head.len() as int, err_at) =~= x);
    assert(t.subrange(err_at, exit_at) =~= y);
    assert(t.subrange(exit_at, t.len() as int) =~= exit_line);
    assert(t.len() == exit_at + exit_line.len());
    assert(starts_with_seq(t, head));
    assert(occurs_at(t, exit_line, exit_at));
    if stdout.len() > 0 {
        assert(occurs_at(t, out_block, head.len() as int));
    }
    if stderr.len() > 0 {
        assert(occurs_at(t, err_block, err_at));
    }
    if stdout.len() > 0 {
        crate::text::lemma_contains_iff_occurs(t, out_block);
    }
    if stderr.len() > 0 {
        crate::text::lemma_contains_iff_occurs(t, err_block);
    }
}

/// The text that reports a tool result back to the agent (see `result_text`).
pub fn invoke_result_text(command: &str, result: &JsonValue) -> (r: String)
    ensures
        r@ == result_text(command@, *result),
{
    let mut msg = concat3("[Command executed: `", command, "`]\n");
    let stdout = match result.get("stdout") {
        Some(v) => v.as_str(),
        None => None,
    };
    match stdout {
        Some(out) => {
            let err = match result.get("stderr") {
                Some(v) => match v.as_str() {
                    Some(s) => s,
                    None => "",
                },
                None => "",
            };
            let code: i64 = match result.get("exitCode") {
                Some(v) => match v.as_i64() {
                    Some(c) => c,
                    None => -1,
                },
                None => -1,
            };
            if chars_of(out).len() > 0 {
                msg.append("stdout:\n```\n");
                msg.append(out);
                msg.append("\n```\n");
            }
            if chars_of(err).len() > 0 {
                msg.append("stderr:\n```\n");
                msg.append(err);
                msg.append("\n```\n");
            }
            msg.append("exitCode: ");
            let code_text = i64_to_string(code);
            msg.append(code_text.as_str());
            proof {
                reveal_strlit("");
            }
            msg
        },
        None => {
            let rendered = json_text(result);
            msg.append("Result: ");
            msg.append(rendered.as_str());
            msg
        },
    }
}

// ---------------------------------------------------------------------------
// What the tools are asked
// ---------------------------------------------------------------------------

/// A request to the `clawpal` tool.
#[derive(Debug, Clone, PartialEq, Eq)]
pub enum ClawpalRequest {
    InstanceList,
    SshList,
    ProfileList,
    HealthCheckAll,
    HealthCheck(String),
    DoctorProbeOpenclaw,
    DoctorFixOpenclawPath,
}

/// The trimmed `args` member of a tool's arguments, empty when missing.
pub open spec fn raw_args(args: JsonValue) -> Seq<char> {
    trim(str_member_or_empty(args, "args"@))
}

/// The instance a health check targets: its third word, unless it is
/// missing or `check`, in which case `local`.
pub open spec fn health_target(raw: Seq<char>) -> Seq<char> {
    let w = words(raw);
    if w.len() > 2 && w[2].len() > 0 && w[2] != "check"@ {
        w[2]
    } else {
        "local"@
    }
}

/// What a `clawpal` invocation asks for, or why it is refused.
pub open spec fn clawpal_request(args: JsonValue) -> Result<(int, Seq<char>), Seq<char>> {
    let raw = raw_args(args);
    if raw.len() == 0 {
        Err("clawpal: missing args"@)
    } else if raw == "instance list"@ {
        Ok((0, Seq::empty()))
    } else if raw == "ssh list"@ {
        Ok((1, Seq::empty()))
    } else if raw == "profile list"@ {
        Ok((2, Seq::empty()))
    } else if starts_with_seq(raw, "health check"@) {
        if contains_seq(raw, "--all"@) {
            Ok((3, Seq::empty()))
        } else {
            Ok((4, health_target(raw)))
        }
    } else if raw == "doctor probe-openclaw"@ {
        Ok((5, Seq::empty()))
    } else if raw == "doctor fix-openclaw-path"@ {
        Ok((6, Seq::empty()))
    } else {
        Err("unsupported clawpal args: "@ + raw)
    }
}

/// The view of a request: its kind in the order of the variants, and the
/// target of a single health check.
pub open spec fn request_view(r: ClawpalRequest) -> (int, Seq<char>) {
    match r {
        ClawpalRequest::InstanceList => (0, Seq::empty()),
        ClawpalRequest::SshList => (1, Seq::empty()),
        ClawpalRequest::ProfileList => (2, Seq::empty()),
        ClawpalRequest::HealthCheckAll => (3, Seq::empty()),
        ClawpalRequest::HealthCheck(t) => (4, t@),
        ClawpalRequest::DoctorProbeOpenclaw => (5, Seq::empty()),
        ClawpalRequest::DoctorFixOpenclawPath => (6, Seq::empty()),
    }
}

/// The trimmed `args` member of a tool's arguments.
fn read_raw_args(args: &JsonValue) -> (r: String)
    ensures
        r@ == raw_args(*args),
{
    let raw = match args.get("args") {
        Some(v) => match v.as_str() {
            Some(s) => s,
            None => "",
        },
        None => "",
    };
    proof {
        reveal_strlit("");
    }
    trim_str(raw)
}

/// Reads what a `clawpal` invocation asks for (see `clawpal_request`).
pub fn parse_clawpal_args(args: &JsonValue) -> (r: Result<ClawpalRequest, String>)
    ensures
        match clawpal_request(*args) {
            Ok(v) => r matches Ok(q) && request_view(q) == v,
            Err(m) => r matches Err(e) && e@ == m,
        },
{
    let raw = read_raw_args(args);
    if chars_of(raw.as_str()).len() == 0 {
        return Err(owned("clawpal: missing args"));
    }
    if str_eq(raw.as_str(), "instance list") {
        return Ok(ClawpalRequest::InstanceList);
    }
    if str_eq(raw.as_str(), "ssh list") {
        return Ok(ClawpalRequest::SshList);
    }
    if str_eq(raw.as_str(), "profile list") {
        return Ok(ClawpalRequest::ProfileList);
    }
    if str_starts_with(raw.as_str(), "health check") {
        if str_contains(raw.as_str(), "--all") {
            return Ok(ClawpalRequest::HealthCheckAll);
        }
        let w = split_whitespace_str(raw.as_str());
        let target = if w.len() > 2 && chars_of(w[2].as_str()).len() > 0 && !str_eq(w[2].as_str(), "check") {
            w[2].clone()
        } else {
            owned("local")
        };
        assert(strings_view(w@)[2] == w@[2]@ || w@.len() <= 2);
        return Ok(ClawpalRequest::HealthCheck(target));
    }
    if str_eq(raw.as_str(), "doctor probe-openclaw") {
        return Ok(ClawpalRequest::DoctorProbeOpenclaw);
    }
    if str_eq(raw.as_str(), "doctor fix-openclaw-path") {
        return Ok(ClawpalRequest::DoctorFixOpenclawPath);
    }
    Err(concat2("unsupported clawpal args: ", raw.as_str()))
}

/// The arguments of an `openclaw` invocation, or why it is refused: only the
/// local target is supported, and the arguments must not be empty.
pub open spec fn openclaw_request(args: JsonValue, target: Seq<char>) -> Result<Seq<Seq<char>>, Seq<char>> {
    if target != "local"@ {
        Err("openclaw tool currently supports local target only"@)
    } else if raw_args(args).len() == 0 {
        Err("openclaw: missing args"@)
    } else {
        Ok(words(raw_args(args)))
    }
}

/// Reads the arguments of an `openclaw` invocation (see `openclaw_request`).
pub fn parse_openclaw_args(args: &JsonValue, target: &str) -> (r: Result<Vec<String>, String>)
    ensures
        match openclaw_request(*args, target@) {
            Ok(v) => r matches Ok(parts) && strings_view(parts@) == v,
            Err(m) => r matches Err(e) && e@ == m,
        },
{
    if !str_eq(target, "local") {
        return Err(owned("openclaw tool currently supports local target only"));
    }
    let raw = read_raw_args(args);
    if chars_of(raw.as_str()).len() == 0 {
        return Err(owned("openclaw: missing args"));
    }
    Ok(split_whitespace_str(raw.as_str()))
}

// ---------------------------------------------------------------------------
// Sensitive paths
// ---------------------------------------------------------------------------

/// The path fragments that are never read or written.
pub open spec fn sensitive_patterns() -> Seq<Seq<char>> {
    seq![
        "/.ssh/"@,
        "/.ssh"@,
        "/.gnupg/"@,
        "/.gnupg"@,
        "/.aws/"@,
        "/.aws"@,
        "/.config/gcloud/"@,
        "/.azure/"@,
        "/.kube/config"@,
        "/.docker/config.json"@,
        "/.netrc"@,
        "/.npmrc"@,
        "/.env"@,
        "/.bash_history"@,
        "/.zsh_history"@,
        "/etc/shadow"@,
        "/etc/sudoers"@,
    ]
}

/// The path fragments that are never read or written, in order.
pub fn sensitive_path_patterns() -> (r: Vec<&'static str>)
    ensures
        r@.map_values(|s: &str| s@) == sensitive_patterns(),
{
    let r = vec![
        "/.ssh/",
        "/.ssh",
        "/.gnupg/",
        "/.gnupg",
        "/.aws/",
        "/.aws",
        "/.config/gcloud/",
        "/.azure/",
        "/.kube/config",
        "/.docker/config.json",
        "/.netrc",
        "/.npmrc",
        "/.env",
        "/.bash_history",
        "/.zsh_history",
        "/etc/shadow",
        "/etc/sudoers",
    ];
    assert(r@.map_values(|s: &str| s@) =~= sensitive_patterns());
    r
}

/// The first sensitive fragment from index `i` on that `expanded` contains.
pub open spec fn first_sensitive_from(expanded: Seq<char>, i: int) -> Option<Seq<char>>
    decreases sensitive_patterns().len() - i,
{
    if i < 0 || i >= sensitive_patterns().len() {
        None
    } else if contains_seq(expanded, sensitive_patterns()[i]) {
        Some(sensitive_patterns()[i])
    } else {
        first_sensitive_from(expanded, i + 1)
    }
}

/// The message for a blocked path.
pub open spec fn blocked_message(path: Seq<char>, pattern: Seq<char>) -> Seq<char> {
    "Access to "@ + path + " is blocked — matches sensitive path pattern: "@ + pattern
}

/// Refuses `path` when its expansion `expanded` contains a sensitive
/// fragment, naming the first one in the list.
pub fn check_not_sensitive(path: &str, expanded: &str) -> (r: Result<(), String>)
    ensures
        match first_sensitive_from(expanded@, 0) {
            Some(p) => r matches Err(e) && e@ == blocked_message(path@, p),
            None => r is Ok,
        },
{
    let patterns = sensitive_path_patterns();
    let ghost pv = patterns@.map_values(|s: &str| s@);
    let mut i: usize = 0;
    while i < patterns.len()
        invariant
            i <= patterns@.len(),
            pv == patterns@.map_values(|s: &str| s@),
            pv == sensitive_patterns(),
            first_sensitive_from(expanded@, 0) == first_sensitive_from(expanded@, i as int),
        decreases patterns@.len() - i,
    {
        let pattern = patterns[i];
        assert(pv[i as int] == pattern@);
        if str_contains(expanded, pattern) {
            let mut msg = concat3("Access to ", path, " is blocked — matches sensitive path pattern: ");
            msg.append(pattern);
            return Err(msg);
        }
        i = i + 1;
    }
    Ok(())
}

/// `expanded` is what expanding a leading `~` of `path` may give: `path`
/// itself, or, when `path` starts with `~`, a home directory followed by the
/// rest of `path`.
pub open spec fn tilde_expansion_of(path: Seq<char>, expanded: Seq<char>) -> bool {
    if path.len() > 0 && path[0] == '~' {
        expanded == path || exists|home: Seq<char>| expanded == home + path.drop_first()
    } else {
        expanded == path
    }
}

/// `shellexpand::tilde`, written out as a `String`. Claimed, as its source
/// shows: a path not starting with `~` comes back unchanged; otherwise the
/// result is the path itself or a home directory followed by the path after
/// its `~`. Which home directory is not claimed: it comes from the
/// environment.
#[verifier::external_body]
fn expand_tilde(path: &str) -> (r: String)
    ensures
        tilde_expansion_of(path@, r@),
{
    shellexpand::tilde(path).to_string()
}

/// Refuses a path that reaches a sensitive file once a leading `~` is
/// expanded (see `check_not_sensitive`).
pub fn validate_not_sensitive(path: &str) -> (r: Result<(), String>)
    ensures
        exists|expanded: Seq<char>|
            tilde_expansion_of(path@, expanded) && match first_sensitive_from(expanded, 0) {
                Some(p) => r matches Err(e) && e@ == blocked_message(path@, p),
                None => r is Ok,
            },
        !(path@.len() > 0 && path@[0] == '~') ==> match first_sensitive_from(path@, 0) {
            Some(p) => r matches Err(e) && e@ == blocked_message(path@, p),
            None => r is Ok,
        },
{
    let expanded = expand_tilde(path);
    let r = check_not_sensitive(path, expanded.as_str());
    assert(tilde_expansion_of(path@, expanded@));
    r
}

/// A path is let through exactly when its expansion contains none of the
/// sensitive fragments.
pub proof fn law_sensitive_detection_complete(expanded: Seq<char>)
    ensures
        first_sensitive_from(expanded, 0) is None <==> forall|k: int|
            0 <= k < sensitive_patterns().len() ==> !contains_seq(
                expanded,
                #[trigger] sensitive_patterns()[k],
            ),
{
    lemma_first_sensitive_none(expanded, 0);
}

/// `first_sensitive_from(expanded, i)` is none exactly when no fragment from
/// index `i` on occurs.
proof fn lemma_first_sensitive_none(expanded: Seq<char>, i: int)
    requires
        0 <= i,
    ensures
        first_sensitive_from(expanded, i) is None <==> forall|k: int|
            i <= k < sensitive_patterns().len() ==> !contains_seq(
                expanded,
                #[trigger] sensitive_patterns()[k],
            ),
    decreases sensitive_patterns().len() - i,
{
    if i < sensitive_patterns().len() {
        lemma_first_sensitive_none(expanded, i + 1);
    }
}

/// The fragment a refusal names is one of the listed sensitive fragments.
pub proof fn lemma_first_sensitive_is_listed(expanded: Seq<char>, i: int)
    requires
        0 <= i,
    ensures
        first_sensitive_from(expanded, i) matches Some(p) ==> sensitive_patterns().contains(p),
    decreases sensitive_patterns().len() - i,
{
    if i < sensitive_patterns().len() {
        if contains_seq(expanded, sensitive_patterns()[i]) {
            assert(sensitive_patterns()[i] == sensitive_patterns()[i]);
        } else {
            lemma_first_sensitive_is_listed(expanded, i + 1);
        }
    }
}

// ---------------------------------------------------------------------------
// What the user interface is given
// ---------------------------------------------------------------------------

/// `v` is the string `s`.
pub open spec fn is_str(v: JsonValue, s: Seq<char>) -> bool {
    v matches JsonValue::Str(t) && t@ == s
}

/// `v` is the integer `n`, held as `serde_json` holds it.
pub open spec fn is_int(v: JsonValue, n: int) -> bool {
    if n >= 0 {
        v matches JsonValue::Number(crate::json::JsonNumber::PosInt(u)) && u == n
    } else {
        v matches JsonValue::Number(crate::json::JsonNumber::NegInt(i)) && i == n
    }
}

/// The integer `n` as a document.
pub fn int_value(n: i64) -> (r: JsonValue)
    ensures
        is_int(r, n as int),
{
    if n >= 0 {
        JsonValue::Number(crate::json::JsonNumber::PosInt(n as u64))
    } else {
        JsonValue::Number(crate::json::JsonNumber::NegInt(n))
    }
}

/// The result of a tool run: `{ "stdout", "stderr", "exitCode" }`.
pub fn tool_result(stdout: &str, stderr: &str, exit_code: i64) -> (r: JsonValue)
    ensures
        r matches JsonValue::Object(e) && e@.len() == 3 && e@[0].0@ == "stdout"@ && is_str(
            e@[0].1,
            stdout@,
        ) && e@[1].0@ == "stderr"@ && is_str(e@[1].1, stderr@) && e@[2].0@ == "exitCode"@
            && is_int(e@[2].1, exit_code as int),
{
    let mut entries: Vec<(String, JsonValue)> = Vec::new();
    entries.push((owned("stdout"), JsonValue::Str(owned(stdout))));
    entries.push((owned("stderr"), JsonValue::Str(owned(stderr))));
    entries.push((owned("exitCode"), int_value(exit_code)));
    JsonValue::Object(entries)
}

/// The result of `clawpal doctor probe-openclaw`: the probe, written as JSON
/// text, on stdout, with an empty stderr and exit code 0.
pub fn probe_tool_result(probe: &OpenclawProbe) -> (r: JsonValue)
    ensures
        exists|d: JsonValue|
            is_probe_document(d, probe@) && (r matches JsonValue::Object(e) && e@.len() == 3
                && e@[0].0@ == "stdout"@ && is_str(e@[0].1, json_text_of(d))
                && e@[1].0@ == "stderr"@ && is_str(e@[1].1, Seq::empty())
                && e@[2].0@ == "exitCode"@ && is_int(e@[2].1, 0)),
{
    let d = probe_document(probe);
    let text = json_text(&d);
    proof {
        reveal_strlit("");
    }
    let r = tool_result(text.as_str(), "", 0);
    assert(""@ =~= Seq::<char>::empty());
    assert(is_probe_document(d, probe@) && (r matches JsonValue::Object(e) && e@.len() == 3
        && e@[0].0@ == "stdout"@ && is_str(e@[0].1, json_text_of(d))
        && e@[1].0@ == "stderr"@ && is_str(e@[1].1, Seq::empty())
        && e@[2].0@ == "exitCode"@ && is_int(e@[2].1, 0)));
    r
}

/// The configuration text shown when the configuration cannot be read.
pub const UNREADABLE_CONFIG: &'static str = "(unable to read config)";

/// The version shown when `openclaw --version` cannot be run.
pub const UNKNOWN_VERSION: &'static str = "unknown";

/// `v` is the issue `(id, severity, message)` as a document.
pub open spec fn is_issue_document(v: JsonValue, issue: (Seq<char>, Seq<char>, Seq<char>)) -> bool {
    v matches JsonValue::Object(e) && e@.len() == 3
        && e@[0].0@ == "id"@ && is_str(e@[0].1, issue.0)
        && e@[1].0@ == "severity"@ && is_str(e@[1].1, issue.1)
        && e@[2].0@ == "message"@ && is_str(e@[2].1, issue.2)
}

/// The view of a list of issues.
pub open spec fn issues_view(v: Seq<(String, String, String)>) -> Seq<(Seq<char>, Seq<char>, Seq<char>)> {
    v.map_values(|i: (String, String, String)| (i.0@, i.1@, i.2@))
}

/// `v` is the doctor report `{ ok, score, issues }` as a document.
pub open spec fn is_report_document(
    v: JsonValue,
    ok: bool,
    score: int,
    issues: Seq<(Seq<char>, Seq<char>, Seq<char>)>,
) -> bool {
    v matches JsonValue::Object(e) && e@.len() == 3
        && e@[0].0@ == "ok"@ && e@[0].1 == JsonValue::Bool(ok)
        && e@[1].0@ == "score"@ && is_int(e@[1].1, score)
        && e@[2].0@ == "issues"@ && (e@[2].1 matches JsonValue::Array(items) && items@.len() == issues.len()
            && forall|i: int| 0 <= i < issues.len() ==> is_issue_document(#[trigger] items@[i], issues[i]))
}

/// The text of an optional string, or `fallback`.
pub open spec fn or_fallback(o: Option<String>, fallback: Seq<char>) -> Seq<char> {
    match o {
        Some(s) => s@,
        None => fallback,
    }
}

/// The report's issues as documents.
fn issue_documents(issues: &Vec<(String, String, String)>) -> (r: Vec<JsonValue>)
    ensures
        r@.len() == issues@.len(),
        forall|i: int| 0 <= i < issues@.len() ==> is_issue_document(#[trigger] r@[i], issues_view(issues@)[i]),
{
    let mut out: Vec<JsonValue> = Vec::new();
    let mut i: usize = 0;
    while i < issues.len()
        invariant
            i <= issues@.len(),
            out@.len() == i,
            forall|j: int| 0 <= j < i ==> is_issue_document(#[trigger] out@[j], issues_view(issues@)[j]),
        decreases issues@.len() - i,
    {
        let mut e: Vec<(String, JsonValue)> = Vec::new();
        e.push((owned("id"), JsonValue::Str(owned(issues[i].0.as_str()))));
        e.push((owned("severity"), JsonValue::Str(owned(issues[i].1.as_str()))));
        e.push((owned("message"), JsonValue::Str(owned(issues[i].2.as_str()))));
        out.push(JsonValue::Object(e));
        i = i + 1;
    }
    out
}

/// The diagnosis context of the local machine: the trimmed version output (or
/// `unknown` when the command could not run), the configuration path and
/// content (or a placeholder when it could not be read), the doctor report,
/// whether the gateway runs, the error log (empty when unreadable), and the
/// platform and architecture.
pub fn local_doctor_context(
    version_output: Option<String>,
    config_path: &str,
    config_content: Option<String>,
    report_ok: bool,
    report_score: i64,
    issues: &Vec<(String, String, String)>,
    gateway_running: bool,
    error_log: Option<String>,
    platform: &str,
    arch: &str,
) -> (r: JsonValue)
    ensures
        r matches JsonValue::Object(e) && e@.len() == 8
            && e@[0].0@ == "openclawVersion"@ && is_str(e@[0].1, trim(or_fallback(version_output, UNKNOWN_VERSION@)))
            && e@[1].0@ == "configPath"@ && is_str(e@[1].1, config_path@)
            && e@[2].0@ == "configContent"@ && is_str(e@[2].1, or_fallback(config_content, UNREADABLE_CONFIG@))
            && e@[3].0@ == "doctorReport"@ && is_report_document(e@[3].1, report_ok, report_score as int, issues_view(issues@))
            && e@[4].0@ == "gatewayProcessRunning"@ && e@[4].1 == JsonValue::Bool(gateway_running)
            && e@[5].0@ == "errorLog"@ && is_str(e@[5].1, or_fallback(error_log, Seq::empty()))
            && e@[6].0@ == "platform"@ && is_str(e@[6].1, platform@)
            && e@[7].0@ == "arch"@ && is_str(e@[7].1, arch@),
{
    let version = match version_output {
        Some(v) => trim_str(v.as_str()),
        None => trim_str(UNKNOWN_VERSION),
    };
    let content = match config_content {
        Some(c) => c,
        None => owned(UNREADABLE_CONFIG),
    };
    let log = match error_log {
        Some(l) => l,
        None => String::new(),
    };
    let mut report: Vec<(String, JsonValue)> = Vec::new();
    report.push((owned("ok"), JsonValue::Bool(report_ok)));
    report.push((owned("score"), int_value(report_score)));
    report.push((owned("issues"), JsonValue::Array(issue_documents(issues))));
    let mut e: Vec<(String, JsonValue)> = Vec::new();
    e.push((owned("openclawVersion"), JsonValue::Str(version)));
    e.push((owned("configPath"), JsonValue::Str(owned(config_path))));
    e.push((owned("configContent"), JsonValue::Str(content)));
    e.push((owned("doctorReport"), JsonValue::Object(report)));
    e.push((owned("gatewayProcessRunning"), JsonValue::Bool(gateway_running)));
    e.push((owned("errorLog"), JsonValue::Str(log)));
    e.push((owned("platform"), JsonValue::Str(owned(platform))));
    e.push((owned("arch"), JsonValue::Str(owned(arch))));
    JsonValue::Object(e)
}

/// The configuration path a remote host reported, trimmed, unless it is
/// sensitive.
pub fn remote_config_path(reported: &str) -> (r: Result<String, String>)
    ensures
        r matches Ok(p) ==> p@ == trim(reported@),
        exists|expanded: Seq<char>|
            tilde_expansion_of(trim(reported@), expanded) && match first_sensitive_from(expanded, 0) {
                Some(p) => r matches Err(e) && e@ == blocked_message(trim(reported@), p),
                None => r is Ok,
            },
        !(trim(reported@).len() > 0 && trim(reported@)[0] == '~') ==> match first_sensitive_from(
            trim(reported@),
            0,
        ) {
            Some(p) => r matches Err(e) && e@ == blocked_message(trim(reported@), p),
            None => r is Ok,
        },
{
    let path = trim_str(reported);
    match validate_not_sensitive(path.as_str()) {
        Ok(()) => Ok(path),
        Err(e) => Err(e),
    }
}

/// The diagnosis context gathered from a remote host: the trimmed version
/// output, the configuration path and content, the trimmed gateway status,
/// whether the gateway runs, the error log, the lower-cased trimmed platform,
/// the trimmed architecture, and the host id.
pub fn remote_doctor_context(
    version_output: &str,
    config_path: &str,
    config_content: &str,
    gateway_status_output: &str,
    gateway_running: bool,
    error_log: &str,
    platform_output: &str,
    arch_output: &str,
    host_id: &str,
) -> (r: JsonValue)
    ensures
        r matches JsonValue::Object(e) && e@.len() == 10
            && e@[0].0@ == "openclawVersion"@ && is_str(e@[0].1, trim(version_output@))
            && e@[1].0@ == "configPath"@ && is_str(e@[1].1, config_path@)
            && e@[2].0@ == "configContent"@ && is_str(e@[2].1, config_content@)
            && e@[3].0@ == "gatewayStatus"@ && is_str(e@[3].1, trim(gateway_status_output@))
            && e@[4].0@ == "gatewayProcessRunning"@ && e@[4].1 == JsonValue::Bool(gateway_running)
            && e@[5].0@ == "errorLog"@ && is_str(e@[5].1, error_log@)
            && e@[6].0@ == "platform"@ && is_str(
                e@[6].1,
                crate::agent_fallback::lowercase_of(trim(platform_output@)),
            )
            && e@[7].0@ == "arch"@ && is_str(e@[7].1, trim(arch_output@))
            && e@[8].0@ == "remote"@ && e@[8].1 == JsonValue::Bool(true)
            && e@[9].0@ == "hostId"@ && is_str(e@[9].1, host_id@),
{
    let platform = trim_str(platform_output);
    let platform_lower = crate::agent_fallback::to_lowercase(platform.as_str());
    let mut e: Vec<(String, JsonValue)> = Vec::new();
    e.push((owned("openclawVersion"), JsonValue::Str(trim_str(version_output))));
    e.push((owned("configPath"), JsonValue::Str(owned(config_path))));
    e.push((owned("configContent"), JsonValue::Str(owned(config_content))));
    e.push((owned("gatewayStatus"), JsonValue::Str(trim_str(gateway_status_output))));
    e.push((owned("gatewayProcessRunning"), JsonValue::Bool(gateway_running)));
    e.push((owned("errorLog"), JsonValue::Str(owned(error_log))));
    e.push((owned("platform"), JsonValue::Str(platform_lower)));
    e.push((owned("arch"), JsonValue::Str(trim_str(arch_output))));
    e.push((owned("remote"), JsonValue::Bool(true)));
    e.push((owned("hostId"), JsonValue::Str(owned(host_id))));
    JsonValue::Object(e)
}

} // verus!
