//! Guidance for a failed business operation: what the diagnosis agent
//! answered, or failing that, rules over the error text.
use vstd::prelude::*;

use crate::prompt_templates::{error_guidance_operation_fallback, prompt_block, rendered, render_template, ERROR_GUIDANCE_OPERATION_FALLBACK_MD};
use crate::json::{json_parse_outcome, member, parse_json_value, JsonValue};
use crate::text::{
    chars_of, concat3, contains_seq, decimal, owned, starts_with_seq, str_contains, str_eq,
    str_starts_with, strings_view, sub_string, trim, trim_str, u128_to_string,
};

verus! {

broadcast use vstd::string::group_string_axioms;

// ---------------------------------------------------------------------------
// Data
// ---------------------------------------------------------------------------

/// The guidance shown to the user for a failed operation.
#[derive(Debug, Clone, PartialEq, Eq)]
pub struct ErrorGuidance {
    pub message: String,
    pub summary: String,
    pub actions: Vec<String>,
    pub source: String,
}

/// A summary and the suggested next actions.
#[derive(Debug, Clone, PartialEq, Eq)]
pub struct GuidanceBody {
    pub summary: String,
    pub actions: Vec<String>,
}

/// What probing a remote host for the `openclaw` command found.
#[derive(Debug, Clone, PartialEq, Eq)]
pub struct OpenclawProbe {
    pub openclaw_path: Option<String>,
    pub path: Option<String>,
    pub probe_error: Option<String>,
}

/// The view of an optional string.
pub open spec fn opt_view(o: Option<String>) -> Option<Seq<char>> {
    match o {
        Some(s) => Some(s@),
        None => None,
    }
}

impl View for GuidanceBody {
    type V = (Seq<char>, Seq<Seq<char>>);

    open spec fn view(&self) -> (Seq<char>, Seq<Seq<char>>) {
        (self.summary@, strings_view(self.actions@))
    }
}

impl View for OpenclawProbe {
    type V = (Option<Seq<char>>, Option<Seq<char>>, Option<Seq<char>>);

    open spec fn view(&self) -> (Option<Seq<char>>, Option<Seq<char>>, Option<Seq<char>>) {
        (opt_view(self.openclaw_path), opt_view(self.path), opt_view(self.probe_error))
    }
}

/// The view of an optional probe.
pub open spec fn probe_view(p: Option<&OpenclawProbe>) -> Option<
    (Option<Seq<char>>, Option<Seq<char>>, Option<Seq<char>>),
> {
    match p {
        Some(q) => Some(q@),
        None => None,
    }
}

/// `v` is the string `o` when `o` is present, and `null` otherwise.
pub open spec fn is_opt_str(v: JsonValue, o: Option<Seq<char>>) -> bool {
    match o {
        Some(s) => v matches JsonValue::Str(t) && t@ == s,
        None => v == JsonValue::Null,
    }
}

/// `d` is the probe `p` as a document: `openclawPath`, `path` and
/// `probeError`, each a string or `null`.
pub open spec fn is_probe_document(
    d: JsonValue,
    p: (Option<Seq<char>>, Option<Seq<char>>, Option<Seq<char>>),
) -> bool {
    d matches JsonValue::Object(e) && e@.len() == 3
        && e@[0].0@ == "openclawPath"@ && is_opt_str(e@[0].1, p.0)
        && e@[1].0@ == "path"@ && is_opt_str(e@[1].1, p.1)
        && e@[2].0@ == "probeError"@ && is_opt_str(e@[2].1, p.2)
}

/// An optional string as a document: the string, or `null`.
fn opt_str_value(o: &Option<String>) -> (r: JsonValue)
    ensures
        is_opt_str(r, opt_view(*o)),
{
    match o {
        Some(s) => JsonValue::Str(owned(s.as_str())),
        None => JsonValue::Null,
    }
}

/// What a probe found, as a document (see `is_probe_document`).
pub fn probe_document(probe: &OpenclawProbe) -> (r: JsonValue)
    ensures
        is_probe_document(r, probe@),
{
    let mut e: Vec<(String, JsonValue)> = Vec::new();
    e.push((owned("openclawPath"), opt_str_value(&probe.openclaw_path)));
    e.push((owned("path"), opt_str_value(&probe.path)));
    e.push((owned("probeError"), opt_str_value(&probe.probe_error)));
    JsonValue::Object(e)
}

// ---------------------------------------------------------------------------
// Extracting JSON objects from free text
// ---------------------------------------------------------------------------

/// The scanner state: where the current object starts, the brace depth,
/// whether inside a string, whether the next string character is escaped,
/// and the objects found so far.
pub type ScanState = (Option<int>, int, bool, bool, Seq<Seq<char>>);

/// The scanner state after reading `raw[i]` in state `st`.
pub open spec fn scan_step(st: ScanState, raw: Seq<char>, i: int) -> ScanState {
    let (start, depth, in_string, escaped, found) = st;
    let b = raw[i];
    if in_string {
        if escaped {
            (start, depth, true, false, found)
        } else if b == '\\' {
            (start, depth, true, true, found)
        } else if b == '"' {
            (start, depth, false, false, found)
        } else {
            st
        }
    } else if b == '"' {
        (start, depth, true, escaped, found)
    } else if b == '{' {
        (if start is None { Some(i) } else { start }, depth + 1, false, escaped, found)
    } else if b == '}' {
        if depth == 0 {
            st
        } else if depth == 1 {
            match start {
                Some(s) => (None, 0, false, escaped, found.push(raw.subrange(s, i + 1))),
                None => (start, 0, false, escaped, found),
            }
        } else {
            (start, depth - 1, false, escaped, found)
        }
    } else {
        st
    }
}

/// The scanner state after reading the first `n` characters of `raw`.
pub open spec fn scan(raw: Seq<char>, n: int) -> ScanState
    decreases n,
{
    if n <= 0 {
        (None, 0, false, false, Seq::empty())
    } else {
        scan_step(scan(raw, n - 1), raw, n - 1)
    }
}

/// The top-level `{...}` objects of `raw`, outside JSON strings, in order.
pub open spec fn json_objects(raw: Seq<char>) -> Seq<Seq<char>> {
    scan(raw, raw.len() as int).4
}

/// `raw[a..b]` opens with `{` and closes with `}`.
pub open spec fn is_brace_piece(raw: Seq<char>, a: int, b: int) -> bool {
    0 <= a && a + 2 <= b <= raw.len() && raw[a] == '{' && raw[b - 1] == '}'
}

/// `p` is a piece of `raw` that opens with `{` and closes with `}`.
pub open spec fn is_object_piece(raw: Seq<char>, p: Seq<char>) -> bool {
    exists|a: int, b: int| is_brace_piece(raw, a, b) && p == #[trigger] raw.subrange(a, b)
}

/// Every object found is a piece of the text that opens with `{` and closes
/// with `}`; an open object starts at a `{` already read.
pub proof fn lemma_scan_pieces(raw: Seq<char>, n: int)
    requires
        0 <= n <= raw.len(),
    ensures
        forall|k: int|
            0 <= k < scan(raw, n).4.len() ==> is_object_piece(raw, #[trigger] scan(raw, n).4[k]),
        scan(raw, n).0 matches Some(s) ==> 0 <= s < n && raw[s] == '{',
        scan(raw, n).1 >= 0,
    decreases n,
{
    if n > 0 {
        lemma_scan_pieces(raw, n - 1);
        let prev = scan(raw, n - 1);
        let cur = scan(raw, n);
        let i = n - 1;
        assert(cur == scan_step(prev, raw, i));
        let pushes = !prev.2 && raw[i] == '}' && prev.1 == 1 && prev.0 is Some;
        if pushes {
            let s = prev.0->0;
            assert(cur.4 == prev.4.push(raw.subrange(s, i + 1)));
            assert(is_brace_piece(raw, s, i + 1));
        } else {
            assert(cur.4 == prev.4);
        }
        assert forall|k: int| 0 <= k < cur.4.len() implies is_object_piece(raw, #[trigger] cur.4[k]) by {
            if pushes && k == cur.4.len() - 1 {
                let s = prev.0->0;
                assert(is_brace_piece(raw, s, i + 1) && cur.4[k] == raw.subrange(s, i + 1));
            } else {
                assert(cur.4[k] == prev.4[k]);
                assert(is_object_piece(raw, prev.4[k]));
            }
        }
    }
}

/// The inside of a JSON string: no bare `"`, and each `\\` escapes exactly
/// the one character after it.
pub open spec fn is_string_body(s: Seq<char>) -> bool
    decreases s.len(),
{
    if s.len() == 0 {
        true
    } else if s[0] == '\\' {
        s.len() >= 2 && is_string_body(s.subrange(2, s.len() as int))
    } else {
        s[0] != '"' && is_string_body(s.drop_first())
    }
}

/// The inside of an object without nested objects: characters other than
/// braces and quotes, and JSON strings.
pub open spec fn is_flat_members(s: Seq<char>) -> bool
    decreases s.len(),
{
    if s.len() == 0 {
        true
    } else if s[0] == '"' {
        exists|k: int|
            1 <= k < s.len() && s[k] == '"' && is_string_body(s.subrange(1, k)) && is_flat_members(
                #[trigger] s.subrange(k + 1, s.len() as int),
            )
    } else {
        s[0] != '{' && s[0] != '}' && is_flat_members(s.drop_first())
    }
}

/// Text without braces or quotes.
pub open spec fn is_plain_text(s: Seq<char>) -> bool {
    forall|i: int| 0 <= i < s.len() ==> #[trigger] s[i] != '{' && s[i] != '}' && s[i] != '"'
}

/// Reading plain text from the start leaves the scanner where it began.
proof fn lemma_scan_plain(raw: Seq<char>, n: int)
    requires
        0 <= n <= raw.len(),
        forall|i: int| 0 <= i < n ==> #[trigger] raw[i] != '{' && raw[i] != '}' && raw[i] != '"',
    ensures
        scan(raw, n) == (None::<int>, 0int, false, false, Seq::<Seq<char>>::empty()),
    decreases n,
{
    if n > 0 {
        lemma_scan_plain(raw, n - 1);
    }
}

/// Reading a string body inside a string leaves the scanner inside the
/// string, not escaping, with all else unchanged.
proof fn lemma_scan_string_body(raw: Seq<char>, a: int, b: int)
    requires
        0 <= a <= b <= raw.len(),
        is_string_body(raw.subrange(a, b)),
        scan(raw, a).2,
        !scan(raw, a).3,
    ensures
        scan(raw, b) == (scan(raw, a).0, scan(raw, a).1, true, false, scan(raw, a).4),
    decreases b - a,
{
    let body = raw.subrange(a, b);
    if a < b {
        assert(body[0] == raw[a]);
        if raw[a] == '\\' {
            assert(body[1] == raw[a + 1]);
            assert(body.subrange(2, body.len() as int) =~= raw.subrange(a + 2, b));
            assert(scan(raw, a + 1) == scan_step(scan(raw, a), raw, a));
            assert(scan(raw, a + 2) == scan_step(scan(raw, a + 1), raw, a + 1));
            lemma_scan_string_body(raw, a + 2, b);
        } else {
            assert(body.drop_first() =~= raw.subrange(a + 1, b));
            assert(scan(raw, a + 1) == scan_step(scan(raw, a), raw, a));
            lemma_scan_string_body(raw, a + 1, b);
        }
    }
}

/// Reading flat members inside an open object leaves the scanner in that
/// object, outside any string.
proof fn lemma_scan_flat(raw: Seq<char>, a: int, b: int)
    requires
        0 <= a <= b <= raw.len(),
        is_flat_members(raw.subrange(a, b)),
        !scan(raw, a).2,
        !scan(raw, a).3,
    ensures
        scan(raw, b) == scan(raw, a),
    decreases b - a,
{
    let m = raw.subrange(a, b);
    if a < b {
        assert(m[0] == raw[a]);
        assert(scan(raw, a + 1) == scan_step(scan(raw, a), raw, a));
        if raw[a] == '"' {
            let k = choose|k: int|
                1 <= k < m.len() && m[k] == '"' && is_string_body(m.subrange(1, k)) && is_flat_members(
                    #[trigger] m.subrange(k + 1, m.len() as int),
                );
            assert(m.subrange(1, k) =~= raw.subrange(a + 1, a + k));
            lemma_scan_string_body(raw, a + 1, a + k);
            assert(m[k] == raw[a + k]);
            assert(scan(raw, a + k + 1) == scan_step(scan(raw, a + k), raw, a + k));
            assert(m.subrange(k + 1, m.len() as int) =~= raw.subrange(a + k + 1, b));
            lemma_scan_flat(raw, a + k + 1, b);
        } else {
            assert(m.drop_first() =~= raw.subrange(a + 1, b));
            lemma_scan_flat(raw, a + 1, b);
        }
    }
}

/// A backslash inside a string escapes only the next character: an object
/// whose strings hold escapes, after any text without braces or quotes, is
/// found whole, and it is the only object found.
pub proof fn law_escape_covers_one_character(prefix: Seq<char>, members: Seq<char>)
    requires
        is_plain_text(prefix),
        is_flat_members(members),
    ensures
        json_objects(prefix + "{"@ + members + "}"@) == seq!["{"@ + members + "}"@],
{
    reveal_strlit("{");
    reveal_strlit("}");
    let raw = prefix + "{"@ + members + "}"@;
    let p = prefix.len() as int;
    let n = raw.len() as int;
    assert(n == p + members.len() + 2);
    assert forall|i: int| 0 <= i < p implies #[trigger] raw[i] != '{' && raw[i] != '}' && raw[i] != '"' by {
        assert(raw[i] == prefix[i]);
    }
    lemma_scan_plain(raw, p);
    assert(raw[p] == '{');
    assert(scan(raw, p + 1) == scan_step(scan(raw, p), raw, p));
    assert(raw.subrange(p + 1, n - 1) =~= members);
    lemma_scan_flat(raw, p + 1, n - 1);
    assert(raw[n - 1] == '}');
    assert(scan(raw, n) == scan_step(scan(raw, n - 1), raw, n - 1));
    assert(raw.subrange(p, n) =~= "{"@ + members + "}"@);
    assert(json_objects(raw) =~= seq!["{"@ + members + "}"@]);
}

/// The JSON-looking objects embedded in `raw`: each top-level `{ ... }`
/// region, braces inside JSON strings not counting.
pub fn extract_json_objects(raw: &str) -> (r: Vec<String>)
    ensures
        strings_view(r@) == json_objects(raw@),
        forall|k: int| 0 <= k < r@.len() ==> is_object_piece(raw@, #[trigger] r@[k]@),
{
    let v = chars_of(raw);
    let n = v.len();
    let mut out: Vec<String> = Vec::new();
    let mut start: Option<usize> = None;
    let mut depth: usize = 0;
    let mut in_string = false;
    let mut escaped = false;
    let mut i: usize = 0;
    while i < n
        invariant
            n == v@.len(),
            v@ == raw@,
            i <= n,
            depth <= i,
            start matches Some(s) ==> s < i,
            scan(v@, i as int) == (
                match start {
                    Some(s) => Some(s as int),
                    None => None,
                },
                depth as int,
                in_string,
                escaped,
                strings_view(out@),
            ),
        decreases n - i,
    {
        let b = v[i];
        let ghost before = out@;
        if in_string {
            if escaped {
                escaped = false;
            } else if b == '\\' {
                escaped = true;
            } else if b == '"' {
                in_string = false;
            }
        } else if b == '"' {
            in_string = true;
        } else if b == '{' {
            if start.is_none() {
                start = Some(i);
            }
            depth = depth + 1;
        } else if b == '}' {
            if depth != 0 {
                depth = depth - 1;
                if depth == 0 {
                    if let Some(s) = start {
                        let piece = sub_string(&v, s, i + 1);
                        out.push(piece);
                        assert(strings_view(out@) =~= strings_view(before).push(v@.subrange(s as int, i + 1)));
                        start = None;
                    }
                }
            }
        }
        i = i + 1;
    }
    proof {
        lemma_scan_pieces(raw@, n as int);
        assert forall|k: int| 0 <= k < out@.len() implies is_object_piece(raw@, #[trigger] out@[k]@) by {
            assert(strings_view(out@)[k] == out@[k]@);
            assert(scan(raw@, n as int).4[k] == out@[k]@);
        }
    }
    out
}

// ---------------------------------------------------------------------------
// Guidance from the agent's answer
// ---------------------------------------------------------------------------

/// The string value of an array element; none for other values.
pub open spec fn str_item(x: JsonValue) -> Option<Seq<char>> {
    match x {
        JsonValue::Str(s) => Some(s@),
        _ => None,
    }
}

/// The fields a guidance object offers: its `summary` member when it is a
/// string, and its `actions` member when it is an array, as the string value
/// of each element.
pub open spec fn guidance_fields(v: JsonValue) -> (Option<Seq<char>>, Option<Seq<Option<Seq<char>>>>) {
    (
        match member(v, "summary"@) {
            Some(JsonValue::Str(s)) => Some(s@),
            _ => None,
        },
        match member(v, "actions"@) {
            Some(JsonValue::Array(items)) => Some(items@.map_values(|x: JsonValue| str_item(x))),
            _ => None,
        },
    )
}

/// The view of the fields read from a guidance object.
pub open spec fn fields_view(f: (Option<String>, Option<Vec<Option<String>>>)) -> (
    Option<Seq<char>>,
    Option<Seq<Option<Seq<char>>>>,
) {
    (
        opt_view(f.0),
        match f.1 {
            Some(v) => Some(v@.map_values(|o: Option<String>| opt_view(o))),
            None => None,
        },
    )
}

/// Reads the `summary` and `actions` fields of a guidance object (see
/// `guidance_fields`).
pub fn read_guidance_fields(v: &JsonValue) -> (r: (Option<String>, Option<Vec<Option<String>>>))
    ensures
        fields_view(r) == guidance_fields(*v),
{
    let summary = match v.get("summary") {
        Some(x) => match x.as_str() {
            Some(s) => Some(owned(s)),
            None => None,
        },
        None => None,
    };
    let actions = match v.get("actions") {
        Some(JsonValue::Array(items)) => {
            let mut out: Vec<Option<String>> = Vec::new();
            let mut i: usize = 0;
            while i < items.len()
                invariant
                    i <= items@.len(),
                    out@.len() == i,
                    forall|j: int| 0 <= j < i ==> opt_view(#[trigger] out@[j]) == str_item(items@[j]),
                decreases items@.len() - i,
            {
                let item = match items[i].as_str() {
                    Some(s) => Some(owned(s)),
                    None => None,
                };
                out.push(item);
                i = i + 1;
            }
            assert(out@.map_values(|o: Option<String>| opt_view(o)) =~= items@.map_values(
                |x: JsonValue| str_item(x),
            ));
            Some(out)
        },
        _ => None,
    };
    (summary, actions)
}

/// The fields of the guidance object that `text` parses to; none when it is
/// not JSON.
pub open spec fn text_guidance_fields(text: Seq<char>) -> Option<(Option<Seq<char>>, Option<Seq<Option<Seq<char>>>>)> {
    match json_parse_outcome(text) {
        Ok(v) => Some(guidance_fields(v)),
        Err(_) => None,
    }
}

/// The trimmed, non-empty string actions, in order.
pub open spec fn cleaned_actions(items: Seq<Option<Seq<char>>>) -> Seq<Seq<char>>
    decreases items.len(),
{
    if items.len() == 0 {
        Seq::empty()
    } else {
        let rest = cleaned_actions(items.drop_last());
        match items.last() {
            Some(x) => if trim(x).len() > 0 {
                rest.push(trim(x))
            } else {
                rest
            },
            None => rest,
        }
    }
}

/// The guidance that the fields of a parsed object give: none when the text
/// was not JSON or has no string `summary`.
pub open spec fn guidance_of(
    f: Option<(Option<Seq<char>>, Option<Seq<Option<Seq<char>>>>)>,
) -> Option<(Seq<char>, Seq<Seq<char>>)> {
    match f {
        Some((Some(summary), actions)) => Some(
            (
                trim(summary),
                match actions {
                    Some(items) => cleaned_actions(items),
                    None => Seq::empty(),
                },
            ),
        ),
        _ => None,
    }
}

/// The guidance of the fields read from a candidate object (see `guidance_of`).
pub fn guidance_from_fields(fields: Option<(Option<String>, Option<Vec<Option<String>>>)>) -> (r:
    Option<GuidanceBody>)
    ensures
        match r {
            Some(g) => guidance_of(
                match fields {
                    Some(f) => Some(fields_view(f)),
                    None => None,
                },
            ) == Some(g@),
            None => guidance_of(
                match fields {
                    Some(f) => Some(fields_view(f)),
                    None => None,
                },
            ) is None,
        },
{
    match fields {
        None => None,
        Some((None, _)) => None,
        Some((Some(summary), actions)) => {
            let mut cleaned: Vec<String> = Vec::new();
            let ghost items: Seq<Option<Seq<char>>> = match &actions {
                Some(v) => v@.map_values(|o: Option<String>| opt_view(o)),
                None => Seq::empty(),
            };
            if let Some(list) = &actions {
                let mut i: usize = 0;
                while i < list.len()
                    invariant
                        i <= list@.len(),
                        items == list@.map_values(|o: Option<String>| opt_view(o)),
                        strings_view(cleaned@) == cleaned_actions(items.take(i as int)),
                    decreases list@.len() - i,
                {
                    let ghost before = cleaned@;
                    assert(items.take(i as int + 1).drop_last() =~= items.take(i as int));
                    if let Some(item) = &list[i] {
                        let t = trim_str(item.as_str());
                        if chars_of(t.as_str()).len() > 0 {
                            cleaned.push(t);
                            assert(strings_view(cleaned@) =~= strings_view(before).push(t@));
                        }
                    }
                    i = i + 1;
                }
                assert(items.take(list@.len() as int) =~= items);
            } else {
                assert(strings_view(cleaned@) =~= cleaned_actions(items));
            }
            let body = GuidanceBody { summary: trim_str(summary.as_str()), actions: cleaned };
            Some(body)
        },
    }
}

/// The guidance of the first candidate, from index `i`, that yields one.
pub open spec fn first_guidance_from(cands: Seq<Seq<char>>, i: int) -> Option<
    (Seq<char>, Seq<Seq<char>>),
>
    decreases cands.len() - i,
{
    if i < 0 || i >= cands.len() {
        None
    } else {
        match guidance_of(text_guidance_fields(cands[i])) {
            Some(g) => Some(g),
            None => first_guidance_from(cands, i + 1),
        }
    }
}

/// The guidance in an agent's answer: that of the first embedded JSON object
/// that parses and holds a string `summary`.
pub open spec fn answer_guidance(raw: Seq<char>) -> Option<(Seq<char>, Seq<Seq<char>>)> {
    first_guidance_from(json_objects(raw), 0)
}

/// Reads guidance from an agent's free-text answer (see `answer_guidance`).
pub fn parse_guidance_json(raw: &str) -> (r: Option<GuidanceBody>)
    ensures
        match r {
            Some(g) => answer_guidance(raw@) == Some(g@),
            None => answer_guidance(raw@) is None,
        },
{
    let cands = extract_json_objects(raw);
    let ghost cv = strings_view(cands@);
    let mut i: usize = 0;
    while i < cands.len()
        invariant
            i <= cands@.len(),
            cv == strings_view(cands@),
            cv == json_objects(raw@),
            first_guidance_from(cv, 0) == first_guidance_from(cv, i as int),
        decreases cands@.len() - i,
    {
        let fields = match parse_json_value(cands[i].as_str()) {
            Ok(v) => Some(read_guidance_fields(&v)),
            Err(_) => None,
        };
        assert(cv[i as int] == cands@[i as int]@);
        match guidance_from_fields(fields) {
            Some(g) => {
                return Some(g);
            },
            None => {},
        }
        i = i + 1;
    }
    None
}

// ---------------------------------------------------------------------------
// Rules over the error text
// ---------------------------------------------------------------------------

/// Summary: the openclaw configuration has an incompatible `ownerDisplay` field.
pub const OWNER_DISPLAY_SUMMARY: &'static str = "检测到 openclaw 配置字段不兼容（ownerDisplay）。系统已尝试自动修复并建议复测。";

/// Action: re-enter the instance and wait for the automatic refresh.
pub const OWNER_DISPLAY_ACTION_REENTER: &'static str = "重新进入该实例并等待 1-2 秒后自动刷新。";

/// Action: let the Doctor agent continue with a finer repair.
pub const OWNER_DISPLAY_ACTION_DOCTOR: &'static str = "若仍失败，打开 Doctor 让 Agent继续执行更细粒度修复。";

/// Summary: the target lacks the openclaw command or its PATH misses it.
pub const MISSING_OPENCLAW_SUMMARY: &'static str = "目标实例缺少 openclaw 命令，或登录 shell 的 PATH 未包含该命令。";

/// Summary, first part: the openclaw path found by the probe.
pub const PROBED_PATH_SUMMARY_HEAD: &'static str = "探测到 openclaw 路径为 `";

/// Summary, last part: the login shell initialisation is inconsistent.
pub const PROBED_PATH_SUMMARY_TAIL: &'static str = "`，但当前业务调用仍报命令不存在，通常是登录 shell 初始化不一致。";

/// Action: check the remote login shell configuration.
pub const ACTION_CHECK_SHELL: &'static str = "检查远程登录 shell 配置（如 `.bashrc` / `.zshrc`）是否在非交互会话加载 PATH。";

/// Action: run `openclaw --version` remotely.
pub const ACTION_VERIFY_VERSION: &'static str = "在远程执行 `openclaw --version` 验证同一会话可直接运行。";

/// Action: the automatic probe found no executable path.
pub const ACTION_PROBE_FOUND_NOTHING: &'static str = "自动探测已执行：`command -v openclaw` 未返回可执行路径。";

/// Action: install or repair openclaw, then log in again.
pub const ACTION_REINSTALL_RELOGIN: &'static str = "在目标实例安装/修复 openclaw 后，重新登录 SSH 会话。";

/// Action, first part: the current remote PATH.
pub const ACTION_REMOTE_PATH_HEAD: &'static str = "当前远程 PATH：`";

/// Closing backquote.
pub const BACKQUOTE: &'static str = "`";

/// Action: run the install or repair script, then log in again.
pub const ACTION_RUN_INSTALL_SCRIPT: &'static str = "在目标实例执行 openclaw 安装/修复脚本，并重新登录 shell。";

/// Action: confirm that `command -v openclaw` finds it, then retry.
pub const ACTION_CONFIRM_AND_RETRY: &'static str = "确认 `command -v openclaw` 可返回路径后，再重试当前操作。";

/// Action: open the Doctor page and run the diagnosis.
pub const ACTION_OPEN_DOCTOR: &'static str = "进入 Doctor 页面并点击诊断，让内置 Agent 继续自动排查。";

/// Summary: the remote connection is unavailable.
pub const REMOTE_UNAVAILABLE_SUMMARY: &'static str = "当前远程连接不可用，导致操作失败。";

/// Action: reconnect SSH.
pub const ACTION_RECONNECT_SSH: &'static str = "先在实例页重新连接 SSH，并确认网络可达。";

/// Action: run a health check.
pub const ACTION_HEALTH_CHECK: &'static str = "执行一次健康检查，确认网关和配置目录可访问。";

/// Action: open Doctor if it still fails.
pub const ACTION_DOCTOR_IF_STILL_FAILING: &'static str = "若仍失败，打开 Doctor 页面执行自动诊断并按建议修复。";

/// Summary, first part: the operation that failed.
pub const GENERIC_SUMMARY_HEAD: &'static str = "操作 `";

/// Summary, middle part: the environment.
pub const GENERIC_SUMMARY_MIDDLE: &'static str = "` 在 `";

/// Summary, last part: diagnose before continuing.
pub const GENERIC_SUMMARY_TAIL: &'static str = "` 环境执行失败，建议先做诊断再继续。";

/// Action: run the Doctor diagnosis.
pub const ACTION_RUN_DIAGNOSIS: &'static str = "打开 Doctor 页面运行诊断，获取可执行修复步骤。";

/// Action: handle blockers first, then retry.
pub const ACTION_FIX_BLOCKERS: &'static str = "按诊断结果优先处理阻塞项后，再重试当前操作。";

/// A probe result: `(openclaw path, PATH, probe error)`.
pub type ProbeView = (Option<Seq<char>>, Option<Seq<char>>, Option<Seq<char>>);

/// The error text speaks of an incompatible `ownerDisplay` field.
pub open spec fn is_owner_display_error(lower: Seq<char>) -> bool {
    contains_seq(lower, "ownerdisplay"@) && (contains_seq(lower, "unknown field"@) || contains_seq(
        lower,
        "invalid field"@,
    ) || contains_seq(lower, "failed to parse"@) || contains_seq(lower, "deserialize"@))
}

/// The error text says that openclaw was not found.
pub open spec fn is_openclaw_missing_error(lower: Seq<char>) -> bool {
    contains_seq(lower, "openclaw"@) && (contains_seq(lower, "command not found"@) || contains_seq(
        lower,
        "not found"@,
    ))
}

/// The error text speaks of the remote connection.
pub open spec fn is_remote_error(lower: Seq<char>) -> bool {
    contains_seq(lower, "not connected to remote"@) || contains_seq(lower, "ssh"@) || contains_seq(
        lower,
        "connection refused"@,
    )
}

/// The summary when openclaw is missing.
pub open spec fn missing_summary(probe: Option<ProbeView>) -> Seq<char> {
    match probe {
        Some((Some(path), _, _)) => PROBED_PATH_SUMMARY_HEAD@ + path + PROBED_PATH_SUMMARY_TAIL@,
        _ => MISSING_OPENCLAW_SUMMARY@,
    }
}

/// The actions when openclaw is missing.
pub open spec fn missing_actions(probe: Option<ProbeView>) -> Seq<Seq<char>> {
    let base = match probe {
        Some((found, path_env, _)) => (if found is Some {
            seq![ACTION_CHECK_SHELL@, ACTION_VERIFY_VERSION@]
        } else {
            seq![ACTION_PROBE_FOUND_NOTHING@, ACTION_REINSTALL_RELOGIN@]
        }) + match path_env {
            Some(p) => seq![ACTION_REMOTE_PATH_HEAD@ + p + BACKQUOTE@],
            None => Seq::empty(),
        },
        None => seq![ACTION_RUN_INSTALL_SCRIPT@, ACTION_CONFIRM_AND_RETRY@],
    };
    base.push(ACTION_OPEN_DOCTOR@)
}

/// The rule-based guidance for a lower-cased error text.
pub open spec fn rules_guidance(
    lower: Seq<char>,
    transport: Seq<char>,
    operation: Seq<char>,
    probe: Option<ProbeView>,
) -> (Seq<char>, Seq<Seq<char>>) {
    if is_owner_display_error(lower) {
        (OWNER_DISPLAY_SUMMARY@, seq![OWNER_DISPLAY_ACTION_REENTER@, OWNER_DISPLAY_ACTION_DOCTOR@])
    } else if is_openclaw_missing_error(lower) {
        (missing_summary(probe), missing_actions(probe))
    } else if is_remote_error(lower) {
        (
            REMOTE_UNAVAILABLE_SUMMARY@,
            seq![ACTION_RECONNECT_SSH@, ACTION_HEALTH_CHECK@, ACTION_DOCTOR_IF_STILL_FAILING@],
        )
    } else {
        (
            GENERIC_SUMMARY_HEAD@ + operation + GENERIC_SUMMARY_MIDDLE@ + transport
                + GENERIC_SUMMARY_TAIL@,
            seq![ACTION_RUN_DIAGNOSIS@, ACTION_FIX_BLOCKERS@],
        )
    }
}

/// An error text that names `ownerDisplay` together with a parse failure gets
/// the `ownerDisplay` guidance, whatever else it says.
pub proof fn law_owner_display_guidance(
    lower: Seq<char>,
    transport: Seq<char>,
    operation: Seq<char>,
    probe: Option<ProbeView>,
)
    requires
        contains_seq(lower, "ownerdisplay"@),
        contains_seq(lower, "unknown field"@) || contains_seq(lower, "invalid field"@)
            || contains_seq(lower, "failed to parse"@) || contains_seq(lower, "deserialize"@),
    ensures
        rules_guidance(lower, transport, operation, probe) == (
            OWNER_DISPLAY_SUMMARY@,
            seq![OWNER_DISPLAY_ACTION_REENTER@, OWNER_DISPLAY_ACTION_DOCTOR@],
        ),
{
}

/// An error text that says openclaw was not found (and is no `ownerDisplay`
/// parse failure) gets the missing-openclaw guidance: the probed path in the
/// summary when the probe found one, the probe's findings and the remote PATH
/// among the actions, and the Doctor page last.
pub proof fn law_missing_openclaw_guidance(
    lower: Seq<char>,
    transport: Seq<char>,
    operation: Seq<char>,
    probe: Option<ProbeView>,
)
    requires
        !(contains_seq(lower, "ownerdisplay"@) && (contains_seq(lower, "unknown field"@)
            || contains_seq(lower, "invalid field"@) || contains_seq(lower, "failed to parse"@)
            || contains_seq(lower, "deserialize"@))),
        contains_seq(lower, "openclaw"@),
        contains_seq(lower, "command not found"@) || contains_seq(lower, "not found"@),
    ensures
        ({
            let g = rules_guidance(lower, transport, operation, probe);
            match probe {
                None => g == (
                    MISSING_OPENCLAW_SUMMARY@,
                    seq![ACTION_RUN_INSTALL_SCRIPT@, ACTION_CONFIRM_AND_RETRY@, ACTION_OPEN_DOCTOR@],
                ),
                Some((Some(path), None, _)) => g == (
                    PROBED_PATH_SUMMARY_HEAD@ + path + PROBED_PATH_SUMMARY_TAIL@,
                    seq![ACTION_CHECK_SHELL@, ACTION_VERIFY_VERSION@, ACTION_OPEN_DOCTOR@],
                ),
                Some((Some(path), Some(env), _)) => g == (
                    PROBED_PATH_SUMMARY_HEAD@ + path + PROBED_PATH_SUMMARY_TAIL@,
                    seq![
                        ACTION_CHECK_SHELL@,
                        ACTION_VERIFY_VERSION@,
                        ACTION_REMOTE_PATH_HEAD@ + env + BACKQUOTE@,
                        ACTION_OPEN_DOCTOR@,
                    ],
                ),
                Some((None, None, _)) => g == (
                    MISSING_OPENCLAW_SUMMARY@,
                    seq![ACTION_PROBE_FOUND_NOTHING@, ACTION_REINSTALL_RELOGIN@, ACTION_OPEN_DOCTOR@],
                ),
                Some((None, Some(env), _)) => g == (
                    MISSING_OPENCLAW_SUMMARY@,
                    seq![
                        ACTION_PROBE_FOUND_NOTHING@,
                        ACTION_REINSTALL_RELOGIN@,
                        ACTION_REMOTE_PATH_HEAD@ + env + BACKQUOTE@,
                        ACTION_OPEN_DOCTOR@,
                    ],
                ),
            }
        }),
{
    let g = rules_guidance(lower, transport, operation, probe);
    assert(g.1 =~= missing_actions(probe));
    match probe {
        None => {
            assert(missing_actions(probe) =~= seq![ACTION_RUN_INSTALL_SCRIPT@, ACTION_CONFIRM_AND_RETRY@, ACTION_OPEN_DOCTOR@]);
        },
        Some((Some(path), None, _)) => {
            assert(missing_actions(probe) =~= seq![ACTION_CHECK_SHELL@, ACTION_VERIFY_VERSION@, ACTION_OPEN_DOCTOR@]);
        },
        Some((Some(path), Some(env), _)) => {
            assert(missing_actions(probe) =~= seq![
                ACTION_CHECK_SHELL@,
                ACTION_VERIFY_VERSION@,
                ACTION_REMOTE_PATH_HEAD@ + env + BACKQUOTE@,
                ACTION_OPEN_DOCTOR@,
            ]);
        },
        Some((None, None, _)) => {
            assert(missing_actions(probe) =~= seq![ACTION_PROBE_FOUND_NOTHING@, ACTION_REINSTALL_RELOGIN@, ACTION_OPEN_DOCTOR@]);
        },
        Some((None, Some(env), _)) => {
            assert(missing_actions(probe) =~= seq![
                ACTION_PROBE_FOUND_NOTHING@,
                ACTION_REINSTALL_RELOGIN@,
                ACTION_REMOTE_PATH_HEAD@ + env + BACKQUOTE@,
                ACTION_OPEN_DOCTOR@,
            ]);
        },
    }
}

/// An error text that speaks of SSH, a lost remote connection or a refused
/// connection (and matches neither rule above) gets the remote-unavailable
/// guidance with its three actions.
pub proof fn law_remote_error_guidance(
    lower: Seq<char>,
    transport: Seq<char>,
    operation: Seq<char>,
    probe: Option<ProbeView>,
)
    requires
        !(contains_seq(lower, "ownerdisplay"@) && (contains_seq(lower, "unknown field"@)
            || contains_seq(lower, "invalid field"@) || contains_seq(lower, "failed to parse"@)
            || contains_seq(lower, "deserialize"@))),
        !(contains_seq(lower, "openclaw"@) && (contains_seq(lower, "command not found"@)
            || contains_seq(lower, "not found"@))),
        contains_seq(lower, "ssh"@) || contains_seq(lower, "not connected to remote"@)
            || contains_seq(lower, "connection refused"@),
    ensures
        rules_guidance(lower, transport, operation, probe) == (
            REMOTE_UNAVAILABLE_SUMMARY@,
            seq![ACTION_RECONNECT_SSH@, ACTION_HEALTH_CHECK@, ACTION_DOCTOR_IF_STILL_FAILING@],
        ),
{
}

/// An error text that none of the rules recognise gets the generic guidance,
/// naming the operation and the transport.
pub proof fn law_generic_guidance(
    lower: Seq<char>,
    transport: Seq<char>,
    operation: Seq<char>,
    probe: Option<ProbeView>,
)
    requires
        !(contains_seq(lower, "ownerdisplay"@) && (contains_seq(lower, "unknown field"@)
            || contains_seq(lower, "invalid field"@) || contains_seq(lower, "failed to parse"@)
            || contains_seq(lower, "deserialize"@))),
        !(contains_seq(lower, "openclaw"@) && (contains_seq(lower, "command not found"@)
            || contains_seq(lower, "not found"@))),
        !contains_seq(lower, "ssh"@),
        !contains_seq(lower, "not connected to remote"@),
        !contains_seq(lower, "connection refused"@),
    ensures
        rules_guidance(lower, transport, operation, probe) == (
            GENERIC_SUMMARY_HEAD@ + operation + GENERIC_SUMMARY_MIDDLE@ + transport + GENERIC_SUMMARY_TAIL@,
            seq![ACTION_RUN_DIAGNOSIS@, ACTION_FIX_BLOCKERS@],
        ),
{
}

/// What std's `str::to_lowercase` returns for `s`: the Unicode lowercase
/// mapping of each character.
pub uninterp spec fn lowercase_of(s: Seq<char>) -> Seq<char>;

/// std's `str::to_lowercase`. Claimed: the result is `lowercase_of(s)`, a
/// function of the characters of `s` alone.
#[verifier::external_body]
pub(crate) fn to_lowercase(s: &str) -> (r: String)
    ensures
        r@ == lowercase_of(s@),
{
    s.to_lowercase()
}

/// The rule-based guidance for an already lower-cased error text (see
/// `rules_guidance`).
pub fn rules_fallback_lowered(
    lower: &str,
    transport: &str,
    operation: &str,
    probe: Option<&OpenclawProbe>,
) -> (r: GuidanceBody)
    ensures
        r@ == rules_guidance(lower@, transport@, operation@, probe_view(probe)),
{
    if str_contains(lower, "ownerdisplay") && (str_contains(lower, "unknown field") || str_contains(
        lower,
        "invalid field",
    ) || str_contains(lower, "failed to parse") || str_contains(lower, "deserialize")) {
        let actions = vec![owned(OWNER_DISPLAY_ACTION_REENTER), owned(OWNER_DISPLAY_ACTION_DOCTOR)];
        assert(strings_view(actions@) =~= seq![OWNER_DISPLAY_ACTION_REENTER@, OWNER_DISPLAY_ACTION_DOCTOR@]);
        return GuidanceBody { summary: owned(OWNER_DISPLAY_SUMMARY), actions };
    }
    if str_contains(lower, "openclaw") && (str_contains(lower, "command not found") || str_contains(
        lower,
        "not found",
    )) {
        let mut summary = owned(MISSING_OPENCLAW_SUMMARY);
        let mut actions: Vec<String> = Vec::new();
        if let Some(result) = probe {
            if let Some(path) = &result.openclaw_path {
                summary = concat3(PROBED_PATH_SUMMARY_HEAD, path.as_str(), PROBED_PATH_SUMMARY_TAIL);
                actions.push(owned(ACTION_CHECK_SHELL));
                actions.push(owned(ACTION_VERIFY_VERSION));
            } else {
                actions.push(owned(ACTION_PROBE_FOUND_NOTHING));
                actions.push(owned(ACTION_REINSTALL_RELOGIN));
            }
            if let Some(path_env) = &result.path {
                actions.push(concat3(ACTION_REMOTE_PATH_HEAD, path_env.as_str(), BACKQUOTE));
            }
        }
        if actions.len() == 0 {
            actions.push(owned(ACTION_RUN_INSTALL_SCRIPT));
            actions.push(owned(ACTION_CONFIRM_AND_RETRY));
        }
        actions.push(owned(ACTION_OPEN_DOCTOR));
        assert(strings_view(actions@) =~= missing_actions(probe_view(probe)));
        return GuidanceBody { summary, actions };
    }
    if str_contains(lower, "not connected to remote") || str_contains(lower, "ssh") || str_contains(
        lower,
        "connection refused",
    ) {
        let actions = vec![
            owned(ACTION_RECONNECT_SSH),
            owned(ACTION_HEALTH_CHECK),
            owned(ACTION_DOCTOR_IF_STILL_FAILING),
        ];
        assert(strings_view(actions@) =~= seq![ACTION_RECONNECT_SSH@, ACTION_HEALTH_CHECK@, ACTION_DOCTOR_IF_STILL_FAILING@]);
        return GuidanceBody { summary: owned(REMOTE_UNAVAILABLE_SUMMARY), actions };
    }
    let mut summary = concat3(GENERIC_SUMMARY_HEAD, operation, GENERIC_SUMMARY_MIDDLE);
    summary.append(transport);
    summary.append(GENERIC_SUMMARY_TAIL);
    let actions = vec![owned(ACTION_RUN_DIAGNOSIS), owned(ACTION_FIX_BLOCKERS)];
    assert(strings_view(actions@) =~= seq![ACTION_RUN_DIAGNOSIS@, ACTION_FIX_BLOCKERS@]);
    GuidanceBody { summary, actions }
}

/// The rule-based guidance for an error text (see `rules_guidance`), matched
/// against its lower-cased form.
pub fn rules_fallback(
    error_text: &str,
    transport: &str,
    operation: &str,
    probe: Option<&OpenclawProbe>,
) -> (r: GuidanceBody)
    ensures
        r@ == rules_guidance(lowercase_of(error_text@), transport@, operation@, probe_view(probe)),
{
    let lower = to_lowercase(error_text);
    rules_fallback_lowered(lower.as_str(), transport, operation, probe)
}

// ---------------------------------------------------------------------------
// Composing the message
// ---------------------------------------------------------------------------

/// The numbered action lines from number `i + 1` on, each preceded by a newline.
pub open spec fn numbered_lines(actions: Seq<Seq<char>>, i: int) -> Seq<char>
    decreases actions.len() - i,
{
    if i < 0 || i >= actions.len() {
        Seq::empty()
    } else {
        "\n"@ + decimal((i + 1) as nat) + ". "@ + actions[i] + numbered_lines(actions, i + 1)
    }
}

/// The header line that introduces the next steps.
pub const NEXT_STEPS_HEADER: &'static str = "下一步建议：";

/// The message shown for a summary and its actions: the summary alone, or the
/// summary, a blank line, the next-steps header and the numbered actions.
pub open spec fn composed_message(summary: Seq<char>, actions: Seq<Seq<char>>) -> Seq<char> {
    if actions.len() == 0 {
        summary
    } else {
        summary + "\n\n"@ + NEXT_STEPS_HEADER@ + numbered_lines(actions, 0)
    }
}

/// Composes the message of a summary and its actions (see `composed_message`).
pub fn compose_message(summary: &str, actions: &[String]) -> (r: String)
    ensures
        r@ == composed_message(summary@, strings_view(actions@)),
{
    if actions.len() == 0 {
        return owned(summary);
    }
    let ghost av = strings_view(actions@);
    let mut out = owned(summary);
    out.append("\n\n");
    out.append(NEXT_STEPS_HEADER);
    let ghost head = out@;
    let mut i: usize = 0;
    while i < actions.len()
        invariant
            i <= actions@.len(),
            av == strings_view(actions@),
            head + numbered_lines(av, 0) == out@ + numbered_lines(av, i as int),
        decreases actions@.len() - i,
    {
        let ghost before = out@;
        let number = u128_to_string(i as u128 + 1);
        out.append("\n");
        out.append(number.as_str());
        out.append(". ");
        out.append(actions[i].as_str());
        assert(before + numbered_lines(av, i as int) =~= out@ + numbered_lines(av, i + 1));
        i = i + 1;
    }
    assert(out@ =~= out@ + numbered_lines(av, i as int));
    out
}

// ---------------------------------------------------------------------------
// The steps of explaining an operation error
// ---------------------------------------------------------------------------

/// Whether the remote host should be probed for openclaw: the transport is
/// `remote_ssh` and the lower-cased error says openclaw was not found.
pub open spec fn should_probe(transport: Seq<char>, error: Seq<char>) -> bool {
    transport == "remote_ssh"@ && is_openclaw_missing_error(lowercase_of(error))
}

/// Whether to probe the remote host for openclaw (see `should_probe`).
pub fn should_probe_openclaw(transport: &str, error: &str) -> (r: bool)
    ensures
        r == should_probe(transport@, error@),
{
    let lower = to_lowercase(error);
    str_eq(transport, "remote_ssh") && str_contains(lower.as_str(), "openclaw") && (str_contains(
        lower.as_str(),
        "command not found",
    ) || str_contains(lower.as_str(), "not found"))
}

/// The probe assembled from the outputs of `command -v openclaw` and of
/// printing `$PATH`: each trimmed output when it ran and is not empty, and the
/// first error met.
pub fn probe_from_outputs(which: Result<String, String>, path: Result<String, String>) -> (r:
    OpenclawProbe)
    ensures
        r.openclaw_path matches Some(p) ==> which matches Ok(w) && p@ == trim(w@) && p@.len() > 0,
        r.openclaw_path is None ==> (which is Err || trim(which->Ok_0@).len() == 0),
        r.path matches Some(p) ==> path matches Ok(w) && p@ == trim(w@) && p@.len() > 0,
        r.path is None ==> (path is Err || trim(path->Ok_0@).len() == 0),
        r.probe_error == match which {
            Err(e) => Some(e),
            Ok(_) => match path {
                Err(e) => Some(e),
                Ok(_) => None,
            },
        },
{
    let openclaw_path = match &which {
        Ok(out) => {
            let t = trim_str(out.as_str());
            if chars_of(t.as_str()).len() > 0 {
                Some(t)
            } else {
                None
            }
        },
        Err(_) => None,
    };
    let path_val = match &path {
        Ok(out) => {
            let t = trim_str(out.as_str());
            if chars_of(t.as_str()).len() > 0 {
                Some(t)
            } else {
                None
            }
        },
        Err(_) => None,
    };
    let probe_error = match which {
        Err(e) => Some(e),
        Ok(_) => match path {
            Err(e) => Some(e),
            Ok(_) => None,
        },
    };
    OpenclawProbe { openclaw_path, path: path_val, probe_error }
}

/// The language rule for the guidance prompt.
pub open spec fn language_rule(language: Seq<char>) -> Seq<char> {
    if starts_with_seq(lowercase_of(language), "zh"@) {
        "Simplified Chinese (简体中文)"@
    } else {
        "English"@
    }
}

/// The language asked for, `en` by default.
pub open spec fn language_or_default(language: Option<Seq<char>>) -> Seq<char> {
    match language {
        Some(l) => l,
        None => "en"@,
    }
}

/// The prompt that asks the agent for guidance: the operation-fallback
/// template with its tokens filled in.
pub fn guidance_prompt(
    instance_id: &str,
    operation: &str,
    transport: &str,
    error: &str,
    probe_text: &str,
    language: Option<String>,
) -> (r: String)
    ensures
        ({
            let lang = language_or_default(opt_view(language));
            r@ == rendered(
                prompt_block(ERROR_GUIDANCE_OPERATION_FALLBACK_MD@),
                seq![
                    ("{{language_rule}}"@, language_rule(lang)),
                    ("{{instance_id}}"@, instance_id@),
                    ("{{transport}}"@, transport@),
                    ("{{operation}}"@, operation@),
                    ("{{error}}"@, error@),
                    ("{{probe}}"@, probe_text@),
                    ("{{language}}"@, lang),
                ],
            )
        }),
{
    let language = match language {
        Some(l) => l,
        None => owned("en"),
    };
    let lower = to_lowercase(language.as_str());
    let prefer_zh = str_starts_with(lower.as_str(), "zh");
    let rule = if prefer_zh {
        "Simplified Chinese (简体中文)"
    } else {
        "English"
    };
    let template = error_guidance_operation_fallback();
    let vars = [
        ("{{language_rule}}", rule),
        ("{{instance_id}}", instance_id),
        ("{{transport}}", transport),
        ("{{operation}}", operation),
        ("{{error}}", error),
        ("{{probe}}", probe_text),
        ("{{language}}", language.as_str()),
    ];
    let r = render_template(template.as_str(), &vars);
    assert(crate::prompt_templates::pairs_view(vars@) =~= seq![
        ("{{language_rule}}"@, language_rule(language@)),
        ("{{instance_id}}"@, instance_id@),
        ("{{transport}}"@, transport@),
        ("{{operation}}"@, operation@),
        ("{{error}}"@, error@),
        ("{{probe}}"@, probe_text@),
        ("{{language}}"@, language@),
    ]);
    r
}

/// The guidance shown for a failed operation: the agent's guidance when its
/// answer holds one (source `zeroclaw`), else the rules' (source `rules`).
pub open spec fn final_guidance(
    agent_answer: Option<Seq<char>>,
    error: Seq<char>,
    transport: Seq<char>,
    operation: Seq<char>,
    probe: Option<ProbeView>,
) -> ((Seq<char>, Seq<Seq<char>>), Seq<char>) {
    match agent_answer {
        Some(a) => match answer_guidance(a) {
            Some(g) => (g, "zeroclaw"@),
            None => (rules_guidance(lowercase_of(error), transport, operation, probe), "rules"@),
        },
        None => (rules_guidance(lowercase_of(error), transport, operation, probe), "rules"@),
    }
}

/// The guidance for a failed operation given the agent's answer, if any (see
/// `final_guidance`), with its composed message.
pub fn finish_guidance(
    agent_answer: Option<String>,
    error: &str,
    transport: &str,
    operation: &str,
    probe: Option<&OpenclawProbe>,
) -> (r: ErrorGuidance)
    ensures
        ({
            let (g, source) = final_guidance(
                opt_view(agent_answer),
                error@,
                transport@,
                operation@,
                probe_view(probe),
            );
            &&& r.summary@ == g.0
            &&& strings_view(r.actions@) == g.1
            &&& r.source@ == source
            &&& r.message@ == composed_message(g.0, g.1)
        }),
{
    let from_agent = match &agent_answer {
        Some(raw) => parse_guidance_json(raw.as_str()),
        None => None,
    };
    let (guidance, source) = match from_agent {
        Some(parsed) => (parsed, owned("zeroclaw")),
        None => (rules_fallback(error, transport, operation, probe), owned("rules")),
    };
    let message = compose_message(guidance.summary.as_str(), guidance.actions.as_slice());
    ErrorGuidance { message, summary: guidance.summary, actions: guidance.actions, source }
}

} // verus!
