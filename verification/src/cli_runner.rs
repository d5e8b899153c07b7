//! Running the `openclaw` command line: the command text for a remote shell,
//! the output it gives, the JSON it prints, and the queue of commands that
//! wait for the user's approval.
use vstd::prelude::*;

use crate::json::{json_parse_outcome, parse_json_value, JsonValue};
use crate::text::{chars_of, concat2, concat3, find_seq, find_vec, i64_to_string, owned, replace_all, replace_str, signed_decimal, str_eq, strings_view, sub_string, trim_end, trim_end_str};

verus! {

broadcast use vstd::string::group_string_axioms;

// ---------------------------------------------------------------------------
// Output of a run
// ---------------------------------------------------------------------------

/// What a run of the command line printed, and its exit code.
#[derive(Debug, Clone, PartialEq, Eq)]
pub struct CliOutput {
    pub stdout: String,
    pub stderr: String,
    pub exit_code: i32,
}

/// What std's `String::from_utf8_lossy` makes of `bytes`: the text they
/// encode, each invalid sequence replaced by U+FFFD.
pub uninterp spec fn utf8_lossy(bytes: Seq<u8>) -> Seq<char>;

/// std's `String::from_utf8_lossy`. Claimed: the result is
/// `utf8_lossy(bytes)`, and for valid UTF-8 it is the text the bytes encode,
/// as its documentation states.
#[verifier::external_body]
fn from_utf8_lossy(bytes: &[u8]) -> (r: String)
    ensures
        r@ == utf8_lossy(bytes@),
        vstd::utf8::valid_utf8(bytes@) ==> r@ == vstd::utf8::decode_utf8(bytes@),
{
    String::from_utf8_lossy(bytes).into_owned()
}

/// The output of a finished process: its streams decoded and stripped of
/// trailing whitespace, and its exit code, -1 when it has none.
pub fn cli_output_from_process(stdout: &[u8], stderr: &[u8], code: Option<i32>) -> (r: CliOutput)
    ensures
        r.stdout@ == trim_end(utf8_lossy(stdout@)),
        r.stderr@ == trim_end(utf8_lossy(stderr@)),
        r.exit_code == match code {
            Some(c) => c as int,
            None => -1int,
        },
{
    let out = from_utf8_lossy(stdout);
    let err = from_utf8_lossy(stderr);
    let exit_code = match code {
        Some(c) => c,
        None => -1,
    };
    CliOutput {
        stdout: trim_end_str(out.as_str()),
        stderr: trim_end_str(err.as_str()),
        exit_code,
    }
}

// ---------------------------------------------------------------------------
// The command text for a remote login shell
// ---------------------------------------------------------------------------

/// `s` between single quotes, each single quote in it written `'\''`.
pub open spec fn shell_quoted(s: Seq<char>) -> Seq<char> {
    "'"@ + replace_all(s, "'"@, "'\\''"@) + "'"@
}

/// The environment assignments `KEY='value' `, in the given order.
pub open spec fn env_assignments(env: Seq<(Seq<char>, Seq<char>)>) -> Seq<char>
    decreases env.len(),
{
    if env.len() == 0 {
        Seq::empty()
    } else {
        env_assignments(env.drop_last()) + env.last().0 + "="@ + shell_quoted(env.last().1)
            + " "@
    }
}

/// The arguments, each preceded by a space and quoted.
pub open spec fn quoted_args(args: Seq<Seq<char>>) -> Seq<char>
    decreases args.len(),
{
    if args.len() == 0 {
        Seq::empty()
    } else {
        quoted_args(args.drop_last()) + " "@ + shell_quoted(args.last())
    }
}

/// The command text that runs `openclaw` with `args` under `env` in a shell.
pub open spec fn openclaw_command_line(env: Seq<(Seq<char>, Seq<char>)>, args: Seq<Seq<char>>) -> Seq<
    char,
> {
    env_assignments(env) + "openclaw"@ + quoted_args(args)
}

/// `s` quoted for a POSIX shell (see `shell_quoted`).
pub fn shell_quote(s: &str) -> (r: String)
    ensures
        r@ == shell_quoted(s@),
{
    let escaped = replace_str(s, "'", "'\\''");
    concat3("'", escaped.as_str(), "'")
}

/// The views of string pairs.
pub open spec fn string_pairs_view(v: Seq<(String, String)>) -> Seq<(Seq<char>, Seq<char>)> {
    v.map_values(|p: (String, String)| (p.0@, p.1@))
}

/// The views of string slices.
pub open spec fn strs_view(v: Seq<&str>) -> Seq<Seq<char>> {
    v.map_values(|s: &str| s@)
}

/// The command text that runs `openclaw` with `args` in a remote shell, after
/// the environment assignments `env` in the order given.
pub fn remote_command_line(args: &[&str], env: &[(String, String)]) -> (r: String)
    ensures
        r@ == openclaw_command_line(string_pairs_view(env@), strs_view(args@)),
{
    let mut cmd = String::new();
    let mut i: usize = 0;
    while i < env.len()
        invariant
            i <= env@.len(),
            cmd@ == env_assignments(string_pairs_view(env@.take(i as int))),
        decreases env@.len() - i,
    {
        let quoted = shell_quote(env[i].1.as_str());
        cmd.append(env[i].0.as_str());
        cmd.append("=");
        cmd.append(quoted.as_str());
        cmd.append(" ");
        assert(string_pairs_view(env@.take(i as int + 1)).drop_last() =~= string_pairs_view(
            env@.take(i as int),
        ));
        i = i + 1;
    }
    assert(env@.take(env@.len() as int) =~= env@);
    cmd.append("openclaw");
    let ghost head = cmd@;
    let mut j: usize = 0;
    while j < args.len()
        invariant
            j <= args@.len(),
            cmd@ == head + quoted_args(strs_view(args@.take(j as int))),
        decreases args@.len() - j,
    {
        let quoted = shell_quote(args[j]);
        cmd.append(" ");
        cmd.append(quoted.as_str());
        assert(strs_view(args@.take(j as int + 1)).drop_last() =~= strs_view(args@.take(j as int)));
        j = j + 1;
    }
    assert(args@.take(args@.len() as int) =~= args@);
    cmd
}

// ---------------------------------------------------------------------------
// The JSON a run printed
// ---------------------------------------------------------------------------

/// Where the printed JSON starts: at the first `{`, or failing that the first `[`.
pub open spec fn json_start(raw: Seq<char>) -> Option<int> {
    match find_seq(raw, seq!['{']) {
        Some(i) => Some(i),
        None => find_seq(raw, seq!['[']),
    }
}

/// What `parse_json_output` gives: the error of a failed run (its stderr, or
/// its stdout when stderr is empty); an error when stdout holds no `{` or `[`;
/// otherwise the outcome of parsing stdout from there.
pub open spec fn json_output_outcome(stdout: Seq<char>, stderr: Seq<char>, exit_code: i32) -> Result<
    JsonValue,
    Seq<char>,
> {
    if exit_code != 0 {
        Err(
            "openclaw command failed ("@ + signed_decimal(exit_code as int) + "): "@ + (if stderr.len()
                > 0 {
                stderr
            } else {
                stdout
            }),
        )
    } else {
        match json_start(stdout) {
            None => Err("No JSON found in output: "@ + stdout),
            Some(start) => match json_parse_outcome(stdout.subrange(start, stdout.len() as int)) {
                Ok(v) => Ok(v),
                Err(e) => Err("Failed to parse JSON: "@ + e),
            },
        }
    }
}

/// Parses the JSON that a successful run printed (see `json_output_outcome`).
pub fn parse_json_output(output: &CliOutput) -> (r: Result<JsonValue, String>)
    ensures
        match json_output_outcome(output.stdout@, output.stderr@, output.exit_code) {
            Ok(v) => r matches Ok(w) && w == v,
            Err(m) => r matches Err(e) && e@ == m,
        },
{
    if output.exit_code != 0 {
        let details = if chars_of(output.stderr.as_str()).len() > 0 {
            output.stderr.as_str()
        } else {
            output.stdout.as_str()
        };
        let code = i64_to_string(output.exit_code as i64);
        let mut msg = concat3("openclaw command failed (", code.as_str(), "): ");
        msg.append(details);
        return Err(msg);
    }
    let raw = chars_of(output.stdout.as_str());
    let open_brace = vec!['{'];
    let open_bracket = vec!['['];
    assert(open_brace@ =~= seq!['{']);
    assert(open_bracket@ =~= seq!['[']);
    let start = match find_vec(&raw, &open_brace) {
        Some(i) => i,
        None => match find_vec(&raw, &open_bracket) {
            Some(i) => i,
            None => {
                return Err(concat2("No JSON found in output: ", output.stdout.as_str()));
            },
        },
    };
    proof {
        crate::text::lemma_find_from(raw@, open_brace@, 0);
        crate::text::lemma_find_from(raw@, open_bracket@, 0);
    }
    let json_str = sub_string(&raw, start, raw.len());
    match parse_json_value(json_str.as_str()) {
        Ok(v) => Ok(v),
        Err(e) => Err(concat2("Failed to parse JSON: ", e.as_str())),
    }
}

// ---------------------------------------------------------------------------
// The queue of commands awaiting approval
// ---------------------------------------------------------------------------

/// A command waiting for the user's approval.
#[derive(Debug, Clone, PartialEq, Eq)]
pub struct PendingCommand {
    pub id: String,
    pub label: String,
    pub command: Vec<String>,
    pub created_at: String,
}

/// The view of a pending command: `(id, label, command, created_at)`.
pub type PendingView = (Seq<char>, Seq<char>, Seq<Seq<char>>, Seq<char>);

impl View for PendingCommand {
    type V = PendingView;

    open spec fn view(&self) -> PendingView {
        (self.id@, self.label@, strings_view(self.command@), self.created_at@)
    }
}

/// A copy of a list of strings.
pub fn copy_strings(v: &Vec<String>) -> (r: Vec<String>)
    ensures
        strings_view(r@) == strings_view(v@),
{
    let mut out: Vec<String> = Vec::new();
    let mut i: usize = 0;
    while i < v.len()
        invariant
            i <= v@.len(),
            out@.len() == i,
            forall|m: int| 0 <= m < i ==> #[trigger] out@[m]@ == v@[m]@,
        decreases v@.len() - i,
    {
        out.push(v[i].clone());
        i = i + 1;
    }
    assert(strings_view(out@) =~= strings_view(v@));
    out
}

impl PendingCommand {
    /// A copy of this command.
    pub fn duplicate(&self) -> (r: PendingCommand)
        ensures
            r@ == self@,
    {
        PendingCommand {
            id: self.id.clone(),
            label: self.label.clone(),
            command: copy_strings(&self.command),
            created_at: self.created_at.clone(),
        }
    }
}

/// The views of a list of pending commands.
pub open spec fn pending_view(v: Seq<PendingCommand>) -> Seq<PendingView> {
    v.map_values(|c: PendingCommand| c@)
}

/// The commands whose id is not `id`, in order.
pub open spec fn without_id(cmds: Seq<PendingView>, id: Seq<char>) -> Seq<PendingView>
    decreases cmds.len(),
{
    if cmds.len() == 0 {
        Seq::empty()
    } else {
        let rest = without_id(cmds.drop_last(), id);
        if cmds.last().0 == id {
            rest
        } else {
            rest.push(cmds.last())
        }
    }
}

/// Some command has the id `id`.
pub open spec fn has_id(cmds: Seq<PendingView>, id: Seq<char>) -> bool {
    exists|k: int| 0 <= k < cmds.len() && (#[trigger] cmds[k]).0 == id
}

/// Removing by id keeps exactly the commands with another id, in their order:
/// the queue filtered by `id`. No command with that id is left.
pub proof fn law_remove_keeps_exactly_the_others(cmds: Seq<PendingView>, id: Seq<char>)
    ensures
        without_id(cmds, id) == cmds.filter(|c: PendingView| c.0 != id),
        forall|k: int| 0 <= k < without_id(cmds, id).len() ==> (#[trigger] without_id(cmds, id)[k]).0 != id,
    decreases cmds.len(),
{
    let pred = |c: PendingView| c.0 != id;
    if cmds.len() > 0 {
        let d = cmds.drop_last();
        law_remove_keeps_exactly_the_others(d, id);
        assert(cmds =~= d.push(cmds.last()));
        d.lemma_filter_push(cmds.last(), pred);
    } else {
        reveal(Seq::filter);
    }
    let r = cmds.filter(pred);
    assert forall|k: int| 0 <= k < r.len() implies (#[trigger] r[k]).0 != id by {
        cmds.lemma_filter_pred(pred, k);
    }
}

/// Removing by id shortens the list exactly when some command has that id.
pub proof fn lemma_without_id_len(cmds: Seq<PendingView>, id: Seq<char>)
    ensures
        without_id(cmds, id).len() <= cmds.len(),
        without_id(cmds, id).len() < cmds.len() <==> has_id(cmds, id),
    decreases cmds.len(),
{
    if cmds.len() > 0 {
        let d = cmds.drop_last();
        lemma_without_id_len(d, id);
        if has_id(d, id) {
            let k = choose|k: int| 0 <= k < d.len() && (#[trigger] d[k]).0 == id;
            assert(cmds[k] == d[k]);
        }
        if has_id(cmds, id) && cmds.last().0 != id {
            let k = choose|k: int| 0 <= k < cmds.len() && (#[trigger] cmds[k]).0 == id;
            assert(k < d.len());
            assert(d[k] == cmds[k]);
        }
        if cmds.last().0 == id {
            assert(cmds[cmds.len() - 1].0 == id);
        }
    }
}

/// The queue of commands waiting for approval, oldest first.
pub struct CommandQueue {
    commands: Vec<PendingCommand>,
}

impl View for CommandQueue {
    type V = Seq<PendingView>;

    closed spec fn view(&self) -> Seq<PendingView> {
        pending_view(self.commands@)
    }
}

/// The characters used in the text of an id: lowercase hexadecimal digits.
pub open spec fn is_lower_hex(c: char) -> bool {
    ('0' <= c && c <= '9') || ('a' <= c && c <= 'f')
}

/// The hyphenated lowercase form of a UUID: 36 characters, `-` at indices 8,
/// 13, 18 and 23 and lowercase hexadecimal digits elsewhere.
pub open spec fn is_uuid_text(s: Seq<char>) -> bool {
    &&& s.len() == 36
    &&& forall|k: int|
        0 <= k < 36 ==> if k == 8 || k == 13 || k == 18 || k == 23 {
            s[k] == '-'
        } else {
            is_lower_hex(#[trigger] s[k])
        }
}

/// `uuid::Uuid::new_v4()` written with `to_string()`. Claimed, as the uuid
/// crate's hyphenated formatter shows: the text has the shape `is_uuid_text`
/// describes. The value itself is random, so nothing more is claimed.
#[verifier::external_body]
fn new_uuid_v4() -> (r: String)
    ensures
        is_uuid_text(r@),
{
    uuid::Uuid::new_v4().to_string()
}

/// `chrono::Utc::now().to_rfc3339()`: the current time. Nothing is claimed
/// of the text, which depends on the clock.
#[verifier::external_body]
fn now_rfc3339() -> (r: String) {
    chrono::Utc::now().to_rfc3339()
}

impl CommandQueue {
    /// An empty queue.
    pub fn new() -> (q: Self)
        ensures
            q@ == Seq::<PendingView>::empty(),
    {
        let q = CommandQueue { commands: Vec::new() };
        assert(q@ =~= Seq::<PendingView>::empty());
        q
    }

    /// Appends the command with the given id and creation time, and returns it.
    pub fn enqueue_with(
        &mut self,
        id: String,
        label: String,
        command: Vec<String>,
        created_at: String,
    ) -> (r: PendingCommand)
        ensures
            r@ == (id@, label@, strings_view(command@), created_at@),
            final(self)@ == old(self)@.push(r@),
    {
        let cmd = PendingCommand { id, label, command, created_at };
        let copy = cmd.duplicate();
        self.commands.push(copy);
        assert(self@ =~= old(self)@.push(cmd@));
        cmd
    }

    /// Appends a command under a fresh random id, stamped with the current
    /// time, and returns it.
    pub fn enqueue(&mut self, label: String, command: Vec<String>) -> (r: PendingCommand)
        ensures
            r@.1 == label@,
            r@.2 == strings_view(command@),
            is_uuid_text(r@.0),
            final(self)@ == old(self)@.push(r@),
    {
        let id = new_uuid_v4();
        let created_at = now_rfc3339();
        self.enqueue_with(id, label, command, created_at)
    }

    /// Removes the commands with the given id; tells whether one was removed.
    pub fn remove(&mut self, id: &str) -> (r: bool)
        ensures
            final(self)@ == without_id(old(self)@, id@),
            r == has_id(old(self)@, id@),
            r == (final(self)@.len() < old(self)@.len()),
    {
        let ghost all = self@;
        let mut rest: Vec<PendingCommand> = Vec::new();
        std::mem::swap(&mut rest, &mut self.commands);
        let mut kept: Vec<PendingCommand> = Vec::new();
        let n = rest.len();
        let mut i: usize = 0;
        while i < n
            invariant
                n == all.len(),
                i <= n,
                pending_view(rest@) == all.subrange(i as int, n as int),
                rest@.len() == n - i,
                pending_view(kept@) == without_id(all.take(i as int), id@),
            decreases n - i,
        {
            let ghost before = kept@;
            let ghost old_rest = rest@;
            let c = rest.remove(0);
            assert(c@ == all[i as int]) by {
                assert(pending_view(old_rest)[0] == all.subrange(i as int, n as int)[0]);
            }
            assert(all.take(i as int + 1).drop_last() =~= all.take(i as int));
            if !str_eq(c.id.as_str(), id) {
                kept.push(c);
                assert(pending_view(kept@) =~= pending_view(before).push(all[i as int]));
            }
            assert(rest@ =~= old_rest.subrange(1, old_rest.len() as int));
            assert(pending_view(rest@) =~= pending_view(old_rest).subrange(1, old_rest.len() as int));
            assert(pending_view(rest@) =~= all.subrange(i + 1, n as int));
            i = i + 1;
        }
        assert(all.take(n as int) =~= all);
        let remaining = kept.len();
        self.commands = kept;
        proof {
            lemma_without_id_len(all, id@);
        }
        remaining < n
    }

    /// Copies of the queued commands, oldest first.
    pub fn list(&self) -> (r: Vec<PendingCommand>)
        ensures
            pending_view(r@) == self@,
    {
        let mut out: Vec<PendingCommand> = Vec::new();
        let mut i: usize = 0;
        while i < self.commands.len()
            invariant
                i <= self.commands@.len(),
                out@.len() == i,
                forall|m: int| 0 <= m < i ==> #[trigger] out@[m]@ == self.commands@[m]@,
            decreases self.commands@.len() - i,
        {
            out.push(self.commands[i].duplicate());
            i = i + 1;
        }
        assert(pending_view(out@) =~= pending_view(self.commands@));
        out
    }

    /// Empties the queue.
    pub fn clear(&mut self)
        ensures
            final(self)@ == Seq::<PendingView>::empty(),
    {
        self.commands.clear();
        assert(self@ =~= Seq::<PendingView>::empty());
    }

    /// Whether the queue is empty.
    pub fn is_empty(&self) -> (r: bool)
        ensures
            r == (self@.len() == 0),
    {
        self.commands.len() == 0
    }

    /// The number of queued commands.
    pub fn len(&self) -> (r: usize)
        ensures
            r == self@.len(),
    {
        self.commands.len()
    }
}

impl Default for CommandQueue {
    /// An empty queue.
    fn default() -> (q: Self)
        ensures
            q@ == Seq::<PendingView>::empty(),
    {
        Self::new()
    }
}

/// The message for an empty command.
pub const EMPTY_COMMAND: &'static str = "command cannot be empty";

/// Queues a command for approval; an empty command is refused.
pub fn queue_command(queue: &mut CommandQueue, label: String, command: Vec<String>) -> (r: Result<
    PendingCommand,
    String,
>)
    ensures
        command@.len() == 0 ==> (r matches Err(e) && e@ == EMPTY_COMMAND@ && final(queue)@ == old(
            queue,
        )@),
        command@.len() > 0 ==> (r matches Ok(c) && c@.1 == label@ && c@.2 == strings_view(command@)
            && is_uuid_text(c@.0) && final(queue)@ == old(queue)@.push(c@)),
{
    if command.len() == 0 {
        return Err(owned(EMPTY_COMMAND));
    }
    Ok(queue.enqueue(label, command))
}

/// Removes the queued commands with the given id; tells whether one was removed.
pub fn remove_queued_command(queue: &mut CommandQueue, id: String) -> (r: Result<bool, String>)
    ensures
        r == Ok::<bool, String>(has_id(old(queue)@, id@)),
        final(queue)@ == without_id(old(queue)@, id@),
{
    Ok(queue.remove(id.as_str()))
}

/// The queued commands, oldest first.
pub fn list_queued_commands(queue: &CommandQueue) -> (r: Result<Vec<PendingCommand>, String>)
    ensures
        r matches Ok(v) && pending_view(v@) == queue@,
{
    Ok(queue.list())
}

/// Empties the queue.
pub fn discard_queued_commands(queue: &mut CommandQueue) -> (r: Result<bool, String>)
    ensures
        r == Ok::<bool, String>(true),
        final(queue)@ == Seq::<PendingView>::empty(),
{
    queue.clear();
    Ok(true)
}

/// The number of queued commands.
pub fn queued_commands_count(queue: &CommandQueue) -> (r: Result<usize, String>)
    ensures
        r matches Ok(n) && n == queue@.len(),
{
    Ok(queue.len())
}

/// A command just queued is found again by its id: removing that id removes
/// something.
pub proof fn law_remove_after_enqueue(cmds: Seq<PendingView>, c: PendingView)
    ensures
        has_id(cmds.push(c), c.0),
        without_id(cmds.push(c), c.0).len() < cmds.push(c).len(),
{
    let all = cmds.push(c);
    assert(all[all.len() - 1].0 == c.0);
    lemma_without_id_len(all, c.0);
}

/// Removing an id leaves no command with that id.
pub proof fn law_removed_id_is_gone(cmds: Seq<PendingView>, id: Seq<char>)
    ensures
        !has_id(without_id(cmds, id), id),
    decreases cmds.len(),
{
    if cmds.len() > 0 {
        law_removed_id_is_gone(cmds.drop_last(), id);
        let rest = without_id(cmds.drop_last(), id);
        if cmds.last().0 != id {
            let r = rest.push(cmds.last());
            if has_id(r, id) {
                let k = choose|k: int| 0 <= k < r.len() && (#[trigger] r[k]).0 == id;
                assert(k < rest.len());
                assert(r[k] == rest[k]);
            }
        }
    }
}

} // verus!
