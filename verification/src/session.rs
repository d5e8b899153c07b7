//! Conversation history of assistant sessions and the prompts built from it.
//!
//! A `HistoryStore` keeps, for each session key, the most recent
//! `HISTORY_MAX_ENTRIES` entries `(role, text)`, each clamped to
//! `HISTORY_MAX_ENTRY_BYTES` bytes. Prompts replay the recent history before
//! the latest user message, optionally under a total size limit.
use vstd::prelude::*;

use crate::prompt_templates::{doctor_history_preamble, prompt_block, DOCTOR_HISTORY_PREAMBLE_MD};
use crate::text::{byte_len, char_width_of, chars_of, concat3, decimal, lemma_utf8_len_bounds, lemma_utf8_len_concat, owned, sub_string, u128_to_string, utf8_len};

verus! {

broadcast use vstd::string::group_string_axioms;

/// The number of entries kept per session.
pub const HISTORY_MAX_ENTRIES: usize = 12;

/// The byte size to which a stored entry is clamped.
pub const HISTORY_MAX_ENTRY_BYTES: usize = 4 * 1024;

/// The number of recent entries replayed by the fast prompt.
pub const HISTORY_FAST_MAX_ENTRIES: usize = 6;

/// The byte size to which each replayed entry is clamped in the fast prompt.
pub const HISTORY_FAST_MAX_ENTRY_BYTES: usize = 1200;

/// The byte size limit of the whole fast prompt.
pub const HISTORY_FAST_MAX_PROMPT_BYTES: usize = 12 * 1024;

// ---------------------------------------------------------------------------
// Byte-bounded truncation
// ---------------------------------------------------------------------------

/// `a - b`, or 0 when `b > a`.
pub open spec fn sat_sub(a: int, b: int) -> int {
    if a >= b {
        a - b
    } else {
        0
    }
}

/// The longest prefix of `s` whose UTF-8 encoding takes at most `max` bytes.
pub open spec fn prefix_within(s: Seq<char>, max: int) -> Seq<char>
    decreases s.len(),
{
    if s.len() == 0 || utf8_len(s) <= max {
        s
    } else {
        prefix_within(s.drop_last(), max)
    }
}

/// The longest suffix of `s` whose UTF-8 encoding takes at most `max` bytes.
pub open spec fn suffix_within(s: Seq<char>, max: int) -> Seq<char>
    decreases s.len(),
{
    if s.len() == 0 || utf8_len(s) <= max {
        s
    } else {
        suffix_within(s.drop_first(), max)
    }
}

/// Byte lengths grow with the prefix taken.
pub proof fn lemma_utf8_len_take_monotone(s: Seq<char>, i: int, j: int)
    requires
        0 <= i <= j <= s.len(),
    ensures
        utf8_len(s.take(i)) <= utf8_len(s.take(j)),
{
    lemma_utf8_len_concat(s.take(i), s.subrange(i, j));
    assert(s.take(i) + s.subrange(i, j) =~= s.take(j));
}

/// Byte lengths shrink with the start of the suffix taken.
pub proof fn lemma_utf8_len_skip_monotone(s: Seq<char>, i: int, j: int)
    requires
        0 <= i <= j <= s.len(),
    ensures
        utf8_len(s.subrange(j, s.len() as int)) <= utf8_len(s.subrange(i, s.len() as int)),
{
    lemma_utf8_len_concat(s.subrange(i, j), s.subrange(j, s.len() as int));
    assert(s.subrange(i, j) + s.subrange(j, s.len() as int) =~= s.subrange(i, s.len() as int));
}

/// The prefix that `prefix_within` keeps is the one that stops before the first
/// character that does not fit.
proof fn lemma_prefix_within_is_take(s: Seq<char>, max: int, k: int)
    requires
        0 <= k <= s.len(),
        utf8_len(s.take(k)) <= max,
        k == s.len() || utf8_len(s.take(k + 1)) > max,
    ensures
        prefix_within(s, max) == s.take(k),
    decreases s.len(),
{
    if s.len() == k {
        assert(s.take(k) =~= s);
    } else {
        lemma_utf8_len_take_monotone(s, k + 1, s.len() as int);
        assert(s.take(s.len() as int) =~= s);
        let d = s.drop_last();
        assert(d.take(k) =~= s.take(k));
        if k + 1 <= d.len() {
            assert(d.take(k + 1) =~= s.take(k + 1));
        }
        lemma_prefix_within_is_take(d, max, k);
    }
}

/// The suffix that `suffix_within` keeps is the one that starts after the last
/// character that does not fit.
proof fn lemma_suffix_within_is_skip(s: Seq<char>, max: int, j: int)
    requires
        0 <= j <= s.len(),
        utf8_len(s.subrange(j, s.len() as int)) <= max,
        j == 0 || utf8_len(s.subrange(j - 1, s.len() as int)) > max,
    ensures
        suffix_within(s, max) == s.subrange(j, s.len() as int),
    decreases s.len(),
{
    if j == 0 {
        assert(s.subrange(0, s.len() as int) =~= s);
    } else {
        lemma_utf8_len_skip_monotone(s, 0, j - 1);
        assert(s.subrange(0, s.len() as int) =~= s);
        let d = s.drop_first();
        assert(d.subrange(j - 1, d.len() as int) =~= s.subrange(j, s.len() as int));
        if j >= 2 {
            assert(d.subrange(j - 2, d.len() as int) =~= s.subrange(j - 1, s.len() as int));
        }
        lemma_suffix_within_is_skip(d, max, j - 1);
    }
}

/// What `prefix_within` keeps fits in `max` bytes.
pub proof fn lemma_prefix_within_fits(s: Seq<char>, max: int)
    requires
        0 <= max,
    ensures
        utf8_len(prefix_within(s, max)) <= max,
    decreases s.len(),
{
    if s.len() == 0 {
    } else if utf8_len(s) <= max {
    } else {
        lemma_prefix_within_fits(s.drop_last(), max);
    }
}

/// What `suffix_within` keeps fits in `max` bytes.
pub proof fn lemma_suffix_within_fits(s: Seq<char>, max: int)
    requires
        0 <= max,
    ensures
        utf8_len(suffix_within(s, max)) <= max,
    decreases s.len(),
{
    if s.len() == 0 {
    } else if utf8_len(s) <= max {
    } else {
        lemma_suffix_within_fits(s.drop_first(), max);
    }
}

/// What the truncations keep is a prefix, resp. a suffix, of the text.
pub proof fn law_truncations_keep_prefix_and_suffix(s: Seq<char>, max: int)
    ensures
        prefix_within(s, max).len() <= s.len(),
        prefix_within(s, max) == s.take(prefix_within(s, max).len() as int),
        suffix_within(s, max).len() <= s.len(),
        suffix_within(s, max) == s.subrange(
            s.len() - suffix_within(s, max).len(),
            s.len() as int,
        ),
    decreases s.len(),
{
    if s.len() > 0 && utf8_len(s) > max {
        law_truncations_keep_prefix_and_suffix(s.drop_last(), max);
        law_truncations_keep_prefix_and_suffix(s.drop_first(), max);
        let p = prefix_within(s.drop_last(), max);
        assert(s.drop_last().take(p.len() as int) =~= s.take(p.len() as int));
        let q = suffix_within(s.drop_first(), max);
        let d = s.drop_first();
        assert(d.subrange(d.len() - q.len(), d.len() as int) =~= s.subrange(
            s.len() - q.len(),
            s.len() as int,
        ));
    } else {
        assert(s.take(s.len() as int) =~= s);
        assert(s.subrange(0, s.len() as int) =~= s);
    }
}

/// The longest prefix of `input` that fits in `max_bytes` bytes of UTF-8,
/// never splitting a character.
pub fn truncate_utf8_prefix(input: &str, max_bytes: usize) -> (r: String)
    ensures
        r@ == prefix_within(input@, max_bytes as int),
{
    let v = chars_of(input);
    let n = v.len();
    let mut total: u128 = 0;
    let mut k: usize = 0;
    while k < n && total + char_width_of(v[k]) <= max_bytes as u128
        invariant
            n == v@.len(),
            k <= n,
            total == utf8_len(v@.take(k as int)),
            total <= max_bytes,
        decreases n - k,
    {
        assert(v@.take(k as int + 1).drop_last() =~= v@.take(k as int));
        total = total + char_width_of(v[k]);
        k = k + 1;
    }
    proof {
        if k < n {
            assert(v@.take(k as int + 1).drop_last() =~= v@.take(k as int));
        }
        lemma_prefix_within_is_take(v@, max_bytes as int, k as int);
    }
    sub_string(&v, 0, k)
}

/// The longest suffix of `input` that fits in `max_bytes` bytes of UTF-8,
/// never splitting a character.
pub fn truncate_utf8_tail(input: &str, max_bytes: usize) -> (r: String)
    ensures
        r@ == suffix_within(input@, max_bytes as int),
{
    let v = chars_of(input);
    let n = v.len();
    let mut total: u128 = 0;
    let mut j: usize = n;
    assert(v@.subrange(n as int, n as int) =~= Seq::<char>::empty());
    while j > 0 && total + char_width_of(v[j - 1]) <= max_bytes as u128
        invariant
            n == v@.len(),
            j <= n,
            total == utf8_len(v@.subrange(j as int, n as int)),
            total <= max_bytes,
        decreases j,
    {
        proof {
            lemma_utf8_len_concat(seq![v@[j - 1]], v@.subrange(j as int, n as int));
            assert(seq![v@[j - 1]] + v@.subrange(j as int, n as int) =~= v@.subrange(
                j - 1,
                n as int,
            ));
            crate::text::lemma_utf8_len_single(v@[j - 1]);
        }
        total = total + char_width_of(v[j - 1]);
        j = j - 1;
    }
    proof {
        if j > 0 {
            lemma_utf8_len_concat(seq![v@[j - 1]], v@.subrange(j as int, n as int));
            assert(seq![v@[j - 1]] + v@.subrange(j as int, n as int) =~= v@.subrange(
                j - 1,
                n as int,
            ));
            crate::text::lemma_utf8_len_single(v@[j - 1]);
        }
        lemma_suffix_within_is_skip(v@, max_bytes as int, j as int);
    }
    sub_string(&v, j, n)
}

/// The closing part of a truncation marker.
pub open spec fn marker_close() -> Seq<char> {
    " bytes]...\n"@
}

/// The opening part of the marker of a clamped history entry.
pub open spec fn history_marker_lead() -> Seq<char> {
    "\n...[history truncated "@
}

/// The opening part of the marker of an entry clamped for a prompt.
pub open spec fn prompt_marker_lead() -> Seq<char> {
    "\n...[prompt truncated "@
}

/// The marker that replaces the middle of a clamped text: `lead`, the number of
/// bytes beyond the limit, then ` bytes]...` and a newline.
pub open spec fn truncation_marker(lead: Seq<char>, dropped: nat) -> Seq<char> {
    lead + decimal(dropped) + marker_close()
}

/// `content` itself when it fits in `limit` bytes; otherwise its head and tail
/// around a truncation marker, the head and tail sharing (head first, rounding
/// down) what is left of `limit` after the marker.
pub open spec fn clamp_entry(content: Seq<char>, limit: nat, lead: Seq<char>) -> Seq<char> {
    if utf8_len(content) <= limit {
        content
    } else {
        let marker = truncation_marker(lead, (utf8_len(content) - limit) as nat);
        let keep = sat_sub(limit as int, utf8_len(marker) as int);
        let head_keep = keep / 2;
        let tail_keep = keep - head_keep;
        prefix_within(content, head_keep) + marker + suffix_within(content, tail_keep)
    }
}

/// Clamps `content` to `limit` bytes (see `clamp_entry`).
fn clamp_with_marker(content: &str, limit: usize, lead: &str) -> (r: String)
    ensures
        r@ == clamp_entry(content@, limit as nat, lead@),
{
    let len = byte_len(content);
    if len <= limit as u128 {
        return owned(content);
    }
    let dropped = len - limit as u128;
    let count = u128_to_string(dropped);
    let marker = concat3(lead, count.as_str(), " bytes]...\n");
    let marker_len = byte_len(marker.as_str());
    let keep: usize = if limit as u128 >= marker_len {
        (limit as u128 - marker_len) as usize
    } else {
        0
    };
    let head_keep = keep / 2;
    let tail_keep = keep - head_keep;
    let head = truncate_utf8_prefix(content, head_keep);
    let tail = truncate_utf8_tail(content, tail_keep);
    concat3(head.as_str(), marker.as_str(), tail.as_str())
}

/// Clamps a history entry to `HISTORY_MAX_ENTRY_BYTES` bytes.
pub fn clamp_history_entry(content: &str) -> (r: String)
    ensures
        r@ == clamp_entry(content@, HISTORY_MAX_ENTRY_BYTES as nat, history_marker_lead()),
{
    clamp_with_marker(content, HISTORY_MAX_ENTRY_BYTES, "\n...[history truncated ")
}

/// `10^k`.
pub open spec fn ten_pow(k: nat) -> nat
    decreases k,
{
    if k == 0 {
        1
    } else {
        10 * ten_pow((k - 1) as nat)
    }
}

/// The decimal notation of a number below `10^k` has at most `k + 1` digits.
proof fn lemma_decimal_len(n: nat, k: nat)
    requires
        n < ten_pow(k),
    ensures
        decimal(n).len() <= k + 1,
    decreases n,
{
    if n >= 10 && k > 0 {
        let b2 = ten_pow((k - 1) as nat);
        assert(n / 10 < b2) by (nonlinear_arith)
            requires
                n < 10 * b2,
                n >= 10,
        ;
        lemma_decimal_len(n / 10, (k - 1) as nat);
    }
}

/// A clamped text fits in its limit whenever the truncation marker does.
pub proof fn lemma_clamp_entry_fits(content: Seq<char>, limit: nat, lead: Seq<char>)
    requires
        utf8_len(content) > limit ==> utf8_len(
            truncation_marker(lead, (utf8_len(content) - limit) as nat),
        ) <= limit,
    ensures
        utf8_len(clamp_entry(content, limit, lead)) <= limit,
{
    if utf8_len(content) > limit {
        let marker = truncation_marker(lead, (utf8_len(content) - limit) as nat);
        let keep = sat_sub(limit as int, utf8_len(marker) as int);
        let head_keep = keep / 2;
        let tail_keep = keep - head_keep;
        lemma_prefix_within_fits(content, head_keep);
        lemma_suffix_within_fits(content, tail_keep);
        let head = prefix_within(content, head_keep);
        let tail = suffix_within(content, tail_keep);
        lemma_utf8_len_concat(head, marker);
        lemma_utf8_len_concat(head + marker, tail);
    }
}

/// Every stored history entry fits in `HISTORY_MAX_ENTRY_BYTES` bytes, for
/// contents of any size below 2^64 bytes.
pub proof fn law_history_entry_fits(content: Seq<char>)
    requires
        utf8_len(content) < 0x1_0000_0000_0000_0000,
    ensures
        utf8_len(clamp_entry(content, HISTORY_MAX_ENTRY_BYTES as nat, history_marker_lead()))
            <= HISTORY_MAX_ENTRY_BYTES,
{
    let limit = HISTORY_MAX_ENTRY_BYTES as nat;
    if utf8_len(content) > limit {
        let dropped = (utf8_len(content) - limit) as nat;
        assert(ten_pow(20) == 100000000000000000000) by {
            reveal_with_fuel(ten_pow, 21);
        }
        lemma_decimal_len(dropped, 20);
        let marker = truncation_marker(history_marker_lead(), dropped);
        reveal_strlit("\n...[history truncated ");
        reveal_strlit(" bytes]...\n");
        assert(history_marker_lead().len() == 23);
        assert(marker_close().len() == 11);
        lemma_utf8_len_bounds(marker);
    }
    lemma_clamp_entry_fits(content, limit, history_marker_lead());
}

// ---------------------------------------------------------------------------
// The store
// ---------------------------------------------------------------------------

/// The view of a history entry.
pub open spec fn entry_view(e: (String, String)) -> (Seq<char>, Seq<char>) {
    (e.0@, e.1@)
}

/// The view of a list of history entries.
pub open spec fn entries_view(v: Seq<(String, String)>) -> Seq<(Seq<char>, Seq<char>)> {
    v.map_values(|e: (String, String)| entry_view(e))
}

/// The last `n` elements of `s`, or all of `s` when it has fewer.
pub open spec fn keep_last<T>(s: Seq<T>, n: nat) -> Seq<T> {
    if s.len() > n {
        s.subrange(s.len() - n, s.len() as int)
    } else {
        s
    }
}

/// The first index at or after `i` whose key is `key`, or -1.
pub open spec fn key_index_from(keys: Seq<Seq<char>>, key: Seq<char>, i: int) -> int
    decreases keys.len() - i,
{
    if i < 0 || i >= keys.len() {
        -1
    } else if keys[i] == key {
        i
    } else {
        key_index_from(keys, key, i + 1)
    }
}

/// `key_index_from` is -1 or an index at or after `i` holding `key`, with
/// none before it.
proof fn lemma_key_index_from(keys: Seq<Seq<char>>, key: Seq<char>, i: int)
    requires
        0 <= i,
    ensures
        key_index_from(keys, key, i) == -1 || (i <= key_index_from(keys, key, i) < keys.len()
            && keys[key_index_from(keys, key, i)] == key),
        forall|j: int|
            i <= j < keys.len() && (key_index_from(keys, key, i) == -1 || j < key_index_from(
                keys,
                key,
                i,
            )) ==> keys[j] != key,
    decreases keys.len() - i,
{
    if i < keys.len() && keys[i] != key {
        lemma_key_index_from(keys, key, i + 1);
    }
}

/// Appending a key leaves earlier results alone and finds the new key when it
/// was absent.
proof fn lemma_key_index_push(keys: Seq<Seq<char>>, x: Seq<char>, key: Seq<char>, i: int)
    requires
        0 <= i <= keys.len(),
    ensures
        key_index_from(keys.push(x), key, i) == if key_index_from(keys, key, i) >= 0 {
            key_index_from(keys, key, i)
        } else if x == key {
            keys.len() as int
        } else {
            -1
        },
    decreases keys.len() - i,
{
    let pushed = keys.push(x);
    if i < keys.len() {
        assert(pushed[i] == keys[i]);
        if keys[i] != key {
            lemma_key_index_push(keys, x, key, i + 1);
        }
    } else {
        assert(pushed[i] == x);
        assert(key_index_from(pushed, key, i + 1) == -1);
    }
}

/// The session histories of the assistant, keyed by session key.
pub struct HistoryStore {
    sessions: Vec<(String, Vec<(String, String)>)>,
}

impl HistoryStore {
    /// The session keys, in storage order.
    pub closed spec fn keys(self) -> Seq<Seq<char>> {
        self.sessions@.map_values(|e: (String, Vec<(String, String)>)| e.0@)
    }

    /// The history of the session `key`: empty when the session is unknown.
    pub closed spec fn history(self, key: Seq<char>) -> Seq<(Seq<char>, Seq<char>)> {
        let i = key_index_from(self.keys(), key, 0);
        if i < 0 {
            Seq::empty()
        } else {
            entries_view(self.sessions@[i].1@)
        }
    }

    /// No session holds more than `HISTORY_MAX_ENTRIES` entries.
    pub closed spec fn wf(self) -> bool {
        forall|i: int|
            0 <= i < self.sessions@.len() ==> #[trigger] self.sessions@[i].1@.len()
                <= HISTORY_MAX_ENTRIES
    }

    /// An empty store.
    pub fn new() -> (s: Self)
        ensures
            s.wf(),
            forall|k: Seq<char>| #[trigger] s.history(k) == Seq::<(Seq<char>, Seq<char>)>::empty(),
    {
        let s = HistoryStore { sessions: Vec::new() };
        assert forall|k: Seq<char>| #[trigger] s.history(k) == Seq::<(Seq<char>, Seq<char>)>::empty() by {
            assert(key_index_from(s.keys(), k, 0) == -1);
        }
        s
    }

    /// Where the session `key` is stored.
    fn find(&self, key: &str) -> (r: Option<usize>)
        ensures
            r matches Some(i) ==> i < self.sessions@.len() && key_index_from(self.keys(), key@, 0)
                == i,
            r is None ==> key_index_from(self.keys(), key@, 0) == -1,
    {
        let n = self.sessions.len();
        let mut i: usize = 0;
        while i < n
            invariant
                n == self.sessions@.len(),
                i <= n,
                key_index_from(self.keys(), key@, 0) == key_index_from(self.keys(), key@, i as int),
            decreases n - i,
        {
            if crate::text::str_eq(self.sessions[i].0.as_str(), key) {
                return Some(i);
            }
            i = i + 1;
        }
        None
    }

    /// Replaces the entries of the session stored at `i`.
    fn set_entries(&mut self, i: usize, entries: Vec<(String, String)>)
        requires
            i < old(self).sessions@.len(),
        ensures
            final(self).keys() == old(self).keys(),
            final(self).sessions@ == old(self).sessions@.update(
                i as int,
                (old(self).sessions@[i as int].0, entries),
            ),
    {
        let (k, _old_entries) = self.sessions.remove(i);
        self.sessions.insert(i, (k, entries));
        assert(self.sessions@ =~= old(self).sessions@.update(
            i as int,
            (old(self).sessions@[i as int].0, entries),
        ));
        assert(self.keys() =~= old(self).keys());
    }

    /// Stores `entries` as the history of `key`, leaving the other sessions alone.
    fn put(&mut self, key: &str, entries: Vec<(String, String)>)
        ensures
            forall|k: Seq<char>| #[trigger]
                final(self).history(k) == if k == key@ {
                    entries_view(entries@)
                } else {
                    old(self).history(k)
                },
            old(self).wf() && entries@.len() <= HISTORY_MAX_ENTRIES ==> final(self).wf(),
    {
        match self.find(key) {
            Some(i) => {
                let ghost before = *self;
                self.set_entries(i, entries);
                assert forall|k: Seq<char>| #[trigger]
                    self.history(k) == if k == key@ {
                        entries_view(entries@)
                    } else {
                        before.history(k)
                    } by {
                    lemma_key_index_from(self.keys(), key@, 0);
                    if k != key@ {
                        lemma_key_index_from(self.keys(), k, 0);
                        assert(self.keys()[i as int] == key@);
                    }
                }
                assert(old(self).wf() && entries@.len() <= HISTORY_MAX_ENTRIES ==> self.wf()) by {
                    if old(self).wf() && entries@.len() <= HISTORY_MAX_ENTRIES {
                        assert forall|j: int| 0 <= j < self.sessions@.len() implies #[trigger] self.sessions@[j].1@.len() <= HISTORY_MAX_ENTRIES by {
                            if j != i {
                                assert(self.sessions@[j] == before.sessions@[j]);
                            }
                        }
                    }
                }
            },
            None => {
                let ghost before = *self;
                self.sessions.push((owned(key), entries));
                assert(self.keys() =~= before.keys().push(key@));
                assert forall|k: Seq<char>| #[trigger]
                    self.history(k) == if k == key@ {
                        entries_view(entries@)
                    } else {
                        before.history(k)
                    } by {
                    lemma_key_index_push(before.keys(), key@, k, 0);
                    lemma_key_index_from(before.keys(), k, 0);
                    if k != key@ && key_index_from(before.keys(), k, 0) >= 0 {
                        let j = key_index_from(before.keys(), k, 0);
                        assert(self.sessions@[j] == before.sessions@[j]);
                    }
                }
                assert(old(self).wf() && entries@.len() <= HISTORY_MAX_ENTRIES ==> self.wf()) by {
                    if old(self).wf() && entries@.len() <= HISTORY_MAX_ENTRIES {
                        assert forall|j: int| 0 <= j < self.sessions@.len() implies #[trigger] self.sessions@[j].1@.len() <= HISTORY_MAX_ENTRIES by {
                            if j < before.sessions@.len() {
                                assert(self.sessions@[j] == before.sessions@[j]);
                            }
                        }
                    }
                }
            },
        }
    }

    /// A copy of the entries of the session `key`.
    fn entries_of(&self, key: &str) -> (r: Vec<(String, String)>)
        ensures
            entries_view(r@) == self.history(key@),
            self.wf() ==> r@.len() <= HISTORY_MAX_ENTRIES,
    {
        let mut out: Vec<(String, String)> = Vec::new();
        match self.find(key) {
            Some(i) => {
                let h = &self.sessions[i].1;
                let mut j: usize = 0;
                while j < h.len()
                    invariant
                        j <= h@.len(),
                        out@.len() == j,
                        forall|m: int| 0 <= m < j ==> #[trigger] entry_view(out@[m]) == entry_view(h@[m]),
                    decreases h@.len() - j,
                {
                    let role = h[j].0.clone();
                    let text = h[j].1.clone();
                    out.push((role, text));
                    j = j + 1;
                }
                assert(entries_view(out@) =~= entries_view(h@));
                out
            },
            None => {
                assert(entries_view(out@) =~= Seq::<(Seq<char>, Seq<char>)>::empty());
                out
            },
        }
    }
}

/// The history of a session after `reset_history`.
pub fn reset_history(store: &mut HistoryStore, session_key: &str)
    ensures
        forall|k: Seq<char>| #[trigger]
            final(store).history(k) == if k == session_key@ {
                Seq::<(Seq<char>, Seq<char>)>::empty()
            } else {
                old(store).history(k)
            },
        old(store).wf() ==> final(store).wf(),
{
    let empty: Vec<(String, String)> = Vec::new();
    assert(entries_view(empty@) =~= Seq::<(Seq<char>, Seq<char>)>::empty());
    store.put(session_key, empty);
}

/// The history of `old_history` after appending `(role, content)`: the entry
/// is clamped, and only the last `HISTORY_MAX_ENTRIES` entries stay.
pub open spec fn appended_history(
    old_history: Seq<(Seq<char>, Seq<char>)>,
    role: Seq<char>,
    content: Seq<char>,
) -> Seq<(Seq<char>, Seq<char>)> {
    keep_last(
        old_history.push(
            (role, clamp_entry(content, HISTORY_MAX_ENTRY_BYTES as nat, history_marker_lead())),
        ),
        HISTORY_MAX_ENTRIES as nat,
    )
}

/// Appends `(role, content)` to the history of `session_key`, clamping the
/// entry and dropping the oldest entries beyond `HISTORY_MAX_ENTRIES`.
pub fn append_history(store: &mut HistoryStore, session_key: &str, role: &str, content: &str)
    ensures
        forall|k: Seq<char>| #[trigger]
            final(store).history(k) == if k == session_key@ {
                appended_history(old(store).history(k), role@, content@)
            } else {
                old(store).history(k)
            },
        old(store).wf() ==> final(store).wf(),
{
    let mut entries = store.entries_of(session_key);
    let clamped = clamp_history_entry(content);
    entries.push((owned(role), clamped));
    let ghost pushed = entries@;
    assert(entries_view(pushed) =~= store.history(session_key@).push(
        (role@, clamp_entry(content@, HISTORY_MAX_ENTRY_BYTES as nat, history_marker_lead())),
    ));
    if entries.len() > HISTORY_MAX_ENTRIES {
        let start = entries.len() - HISTORY_MAX_ENTRIES;
        let tail = entries.split_off(start);
        entries = tail;
        assert(entries_view(entries@) =~= keep_last(entries_view(pushed), HISTORY_MAX_ENTRIES as nat));
    }
    assert(entries_view(entries@) == appended_history(store.history(session_key@), role@, content@));
    store.put(session_key, entries);
}

/// The number of entries in the history of `session_key`.
pub fn history_len(store: &HistoryStore, session_key: &str) -> (r: usize)
    ensures
        r == store.history(session_key@).len(),
{
    let entries = store.entries_of(session_key);
    entries.len()
}

/// A history never holds more than `HISTORY_MAX_ENTRIES` entries, and each
/// append grows it by one until that cap.
pub proof fn law_append_history_len(
    old_history: Seq<(Seq<char>, Seq<char>)>,
    role: Seq<char>,
    content: Seq<char>,
)
    ensures
        appended_history(old_history, role, content).len() == if old_history.len() + 1
            > HISTORY_MAX_ENTRIES {
            HISTORY_MAX_ENTRIES as nat
        } else {
            old_history.len() + 1
        },
        appended_history(old_history, role, content).last() == (role, clamp_entry(
            content,
            HISTORY_MAX_ENTRY_BYTES as nat,
            history_marker_lead(),
        )),
{
}

/// Appending keeps the most recent entries: the new history ends with the
/// clamped new entry, and the entries before it are the newest entries of the
/// old history, in order, as many as fit under `HISTORY_MAX_ENTRIES` (so the
/// oldest ones are the ones dropped).
pub proof fn law_append_keeps_newest(
    old_history: Seq<(Seq<char>, Seq<char>)>,
    role: Seq<char>,
    content: Seq<char>,
)
    ensures
        ({
            let new_history = appended_history(old_history, role, content);
            let kept = new_history.len() - 1;
            &&& new_history.len() == if old_history.len() + 1 > HISTORY_MAX_ENTRIES {
                HISTORY_MAX_ENTRIES as int
            } else {
                old_history.len() + 1 as int
            }
            &&& new_history[kept] == (role, clamp_entry(
                content,
                HISTORY_MAX_ENTRY_BYTES as nat,
                history_marker_lead(),
            ))
            &&& forall|j: int|
                0 <= j < kept ==> #[trigger] new_history[j] == old_history[old_history.len() - kept + j]
        }),
{
}

/// In a well-formed store every history holds at most `HISTORY_MAX_ENTRIES` entries.
pub proof fn law_history_capped(store: HistoryStore, key: Seq<char>)
    requires
        store.wf(),
    ensures
        store.history(key).len() <= HISTORY_MAX_ENTRIES,
{
    let i = key_index_from(store.keys(), key, 0);
    lemma_key_index_from(store.keys(), key, 0);
    if i >= 0 {
        assert(store.sessions@[i].1@.len() <= HISTORY_MAX_ENTRIES);
    }
}

// ---------------------------------------------------------------------------
// Prompts
// ---------------------------------------------------------------------------

/// The replayed conversation: a line `role: text` per entry.
pub open spec fn conversation_lines(entries: Seq<(Seq<char>, Seq<char>)>) -> Seq<char>
    decreases entries.len(),
{
    if entries.len() == 0 {
        Seq::empty()
    } else {
        conversation_lines(entries.drop_last()) + entries.last().0 + ": "@ + entries.last().1
            + "\n"@
    }
}

/// The prompt made of the preamble, the replayed entries (when there are any)
/// and the latest user message.
pub open spec fn prompt_with_entries(
    preamble: Seq<char>,
    entries: Seq<(Seq<char>, Seq<char>)>,
    latest: Seq<char>,
) -> Seq<char> {
    preamble + (if entries.len() == 0 {
        Seq::empty()
    } else {
        "\nConversation so far:\n"@ + conversation_lines(entries)
    }) + "\nUser: "@ + latest + "\nAssistant:"@
}

/// The entries a prompt replays: the last `max_entries` entries of the
/// history, each clamped to `max_entry_bytes` bytes.
pub open spec fn selected_entries(
    history: Seq<(Seq<char>, Seq<char>)>,
    max_entries: nat,
    max_entry_bytes: nat,
) -> Seq<(Seq<char>, Seq<char>)> {
    if history.len() == 0 || max_entries == 0 {
        Seq::empty()
    } else {
        history.subrange(sat_sub(history.len() as int, max_entries as int), history.len() as int).map_values(
            |e: (Seq<char>, Seq<char>)| (e.0, clamp_entry(e.1, max_entry_bytes, prompt_marker_lead())),
        )
    }
}

/// The number of oldest selected entries dropped, starting from `k`, until the
/// prompt fits in `max_prompt` bytes or no entry is left.
pub open spec fn fitting_start(
    preamble: Seq<char>,
    selected: Seq<(Seq<char>, Seq<char>)>,
    latest: Seq<char>,
    max_prompt: nat,
    k: int,
) -> int
    decreases selected.len() - k,
{
    if k < 0 || k >= selected.len() || utf8_len(
        prompt_with_entries(preamble, selected.subrange(k, selected.len() as int), latest),
    ) <= max_prompt {
        k
    } else {
        fitting_start(preamble, selected, latest, max_prompt, k + 1)
    }
}

/// The marker that starts a prompt cut down to its tail.
pub open spec fn tail_marker() -> Seq<char> {
    "\n...[prompt tail kept for fast mode]...\n"@
}

/// The prompt for `history`: the selected entries, then, when
/// `max_prompt_bytes` is not `usize::MAX`, the oldest entries dropped until it
/// fits, and if even the bare prompt does not fit, its tail behind `tail_marker`.
pub open spec fn limited_prompt(
    history: Seq<(Seq<char>, Seq<char>)>,
    latest: Seq<char>,
    preamble: Seq<char>,
    max_entries: nat,
    max_entry_bytes: nat,
    max_prompt_bytes: nat,
) -> Seq<char> {
    let selected = selected_entries(history, max_entries, max_entry_bytes);
    if max_prompt_bytes == usize::MAX {
        prompt_with_entries(preamble, selected, latest)
    } else {
        let k = fitting_start(preamble, selected, latest, max_prompt_bytes, 0);
        let p = prompt_with_entries(preamble, selected.subrange(k, selected.len() as int), latest);
        if utf8_len(p) > max_prompt_bytes {
            tail_marker() + suffix_within(
                p,
                sat_sub(max_prompt_bytes as int, utf8_len(tail_marker()) as int),
            )
        } else {
            p
        }
    }
}

/// Builds `prompt_with_entries` for the given entries.
fn build_with_entries(preamble: &str, entries: &Vec<(String, String)>, latest: &str) -> (r: String)
    ensures
        r@ == prompt_with_entries(preamble@, entries_view(entries@), latest@),
{
    let mut prompt = owned(preamble);
    if entries.len() > 0 {
        prompt.append("\nConversation so far:\n");
        let ghost head = prompt@;
        let mut i: usize = 0;
        while i < entries.len()
            invariant
                i <= entries@.len(),
                prompt@ == head + conversation_lines(entries_view(entries@.take(i as int))),
            decreases entries@.len() - i,
        {
            let ghost before = prompt@;
            prompt.append(entries[i].0.as_str());
            prompt.append(": ");
            prompt.append(entries[i].1.as_str());
            prompt.append("\n");
            assert(entries_view(entries@.take(i as int + 1)).drop_last() =~= entries_view(
                entries@.take(i as int),
            ));
            i = i + 1;
        }
        assert(entries@.take(entries@.len() as int) =~= entries@);
    } else {
        assert(entries_view(entries@).len() == 0);
    }
    prompt.append("\nUser: ");
    prompt.append(latest);
    prompt.append("\nAssistant:");
    prompt
}

/// Builds the prompt for the history of `session_key` (see `limited_prompt`).
pub fn build_prompt_with_history_preamble_limited(
    store: &HistoryStore,
    session_key: &str,
    latest_user_message: &str,
    preamble: &str,
    max_entries: usize,
    max_entry_bytes: usize,
    max_prompt_bytes: usize,
) -> (r: String)
    ensures
        r@ == limited_prompt(
            store.history(session_key@),
            latest_user_message@,
            preamble@,
            max_entries as nat,
            max_entry_bytes as nat,
            max_prompt_bytes as nat,
        ),
{
    let history = store.entries_of(session_key);
    let ghost hv = entries_view(history@);
    let ghost sel = selected_entries(hv, max_entries as nat, max_entry_bytes as nat);
    let mut selected: Vec<(String, String)> = Vec::new();
    if history.len() > 0 && max_entries > 0 {
        let keep_from = if history.len() >= max_entries {
            history.len() - max_entries
        } else {
            0
        };
        let mut j = keep_from;
        while j < history.len()
            invariant
                keep_from <= j <= history@.len(),
                hv == entries_view(history@),
                history@.len() > 0,
                max_entries > 0,
                keep_from == sat_sub(history@.len() as int, max_entries as int),
                sel == selected_entries(hv, max_entries as nat, max_entry_bytes as nat),
                selected@.len() == j - keep_from,
                forall|m: int|
                    0 <= m < j - keep_from ==> #[trigger] entry_view(selected@[m]) == (
                        history@[keep_from + m].0@,
                        clamp_entry(history@[keep_from + m].1@, max_entry_bytes as nat, prompt_marker_lead()),
                    ),
            decreases history@.len() - j,
        {
            let role = history[j].0.clone();
            let text = clamp_with_marker(history[j].1.as_str(), max_entry_bytes, "\n...[prompt truncated ");
            selected.push((role, text));
            j = j + 1;
        }
        assert(entries_view(selected@) =~= sel);
    } else {
        assert(entries_view(selected@) =~= sel);
    }
    assert(entries_view(selected@) == sel);
    let mut prompt = build_with_entries(preamble, &selected, latest_user_message);
    if max_prompt_bytes != usize::MAX {
        let ghost mut k: int = 0;
        assert(entries_view(selected@) =~= sel.subrange(0, sel.len() as int));
        while byte_len(prompt.as_str()) > max_prompt_bytes as u128 && selected.len() > 0
            invariant
                0 <= k <= sel.len(),
                entries_view(selected@) == sel.subrange(k, sel.len() as int),
                prompt@ == prompt_with_entries(preamble@, sel.subrange(k, sel.len() as int), latest_user_message@),
                fitting_start(preamble@, sel, latest_user_message@, max_prompt_bytes as nat, 0)
                    == fitting_start(preamble@, sel, latest_user_message@, max_prompt_bytes as nat, k),
            decreases selected@.len(),
        {
            let ghost old_sel = selected@;
            selected.remove(0);
            proof {
                assert(selected@ =~= old_sel.subrange(1, old_sel.len() as int));
                assert(entries_view(selected@) =~= entries_view(old_sel).subrange(1, old_sel.len() as int));
                assert(entries_view(selected@) =~= sel.subrange(k + 1, sel.len() as int));
                k = k + 1;
            }
            prompt = build_with_entries(preamble, &selected, latest_user_message);
        }
        if byte_len(prompt.as_str()) > max_prompt_bytes as u128 {
            let marker = "\n...[prompt tail kept for fast mode]...\n";
            let marker_len = byte_len(marker);
            let keep: usize = if max_prompt_bytes as u128 >= marker_len {
                (max_prompt_bytes as u128 - marker_len) as usize
            } else {
                0
            };
            let tail = truncate_utf8_tail(prompt.as_str(), keep);
            prompt = crate::text::concat2(marker, tail.as_str());
        }
    }
    prompt
}

/// The prompt for the history of `session_key` under the given preamble, with
/// the default entry count and entry size, and no total limit.
pub fn build_prompt_with_history_preamble(
    store: &HistoryStore,
    session_key: &str,
    latest_user_message: &str,
    preamble: &str,
) -> (r: String)
    ensures
        r@ == limited_prompt(
            store.history(session_key@),
            latest_user_message@,
            preamble@,
            HISTORY_MAX_ENTRIES as nat,
            HISTORY_MAX_ENTRY_BYTES as nat,
            usize::MAX as nat,
        ),
{
    build_prompt_with_history_preamble_limited(
        store,
        session_key,
        latest_user_message,
        preamble,
        HISTORY_MAX_ENTRIES,
        HISTORY_MAX_ENTRY_BYTES,
        usize::MAX,
    )
}

/// The doctor history preamble followed by a newline.
pub open spec fn doctor_preamble_line() -> Seq<char> {
    prompt_block(DOCTOR_HISTORY_PREAMBLE_MD@) + "\n"@
}

/// The doctor prompt for the history of `session_key`.
pub fn build_prompt_with_history(store: &HistoryStore, session_key: &str, latest_user_message: &str) -> (r: String)
    ensures
        r@ == limited_prompt(
            store.history(session_key@),
            latest_user_message@,
            doctor_preamble_line(),
            HISTORY_MAX_ENTRIES as nat,
            HISTORY_MAX_ENTRY_BYTES as nat,
            usize::MAX as nat,
        ),
{
    let mut preamble = doctor_history_preamble();
    preamble.append("\n");
    build_prompt_with_history_preamble(store, session_key, latest_user_message, preamble.as_str())
}

/// The doctor prompt for the history of `session_key` in fast mode: fewer and
/// shorter entries, and at most `HISTORY_FAST_MAX_PROMPT_BYTES` bytes in all.
pub fn build_prompt_with_history_fast(store: &HistoryStore, session_key: &str, latest_user_message: &str) -> (r: String)
    ensures
        r@ == limited_prompt(
            store.history(session_key@),
            latest_user_message@,
            doctor_preamble_line(),
            HISTORY_FAST_MAX_ENTRIES as nat,
            HISTORY_FAST_MAX_ENTRY_BYTES as nat,
            HISTORY_FAST_MAX_PROMPT_BYTES as nat,
        ),
        utf8_len(r@) <= HISTORY_FAST_MAX_PROMPT_BYTES,
{
    let mut preamble = doctor_history_preamble();
    preamble.append("\n");
    let r = build_prompt_with_history_preamble_limited(
        store,
        session_key,
        latest_user_message,
        preamble.as_str(),
        HISTORY_FAST_MAX_ENTRIES,
        HISTORY_FAST_MAX_ENTRY_BYTES,
        HISTORY_FAST_MAX_PROMPT_BYTES,
    );
    proof {
        law_limited_prompt_fits(
            store.history(session_key@),
            latest_user_message@,
            doctor_preamble_line(),
            HISTORY_FAST_MAX_ENTRIES as nat,
            HISTORY_FAST_MAX_ENTRY_BYTES as nat,
            HISTORY_FAST_MAX_PROMPT_BYTES as nat,
        );
    }
    r
}

/// After `(role, content)` is appended to a history, the next prompt built
/// from it under any preamble ends with the line `role: c` (`c` the clamped
/// content), an empty line, the user's message and `Assistant:`.
pub proof fn law_prompt_ends_with_appended_entry(
    history: Seq<(Seq<char>, Seq<char>)>,
    role: Seq<char>,
    content: Seq<char>,
    latest: Seq<char>,
    preamble: Seq<char>,
)
    requires
        utf8_len(content) < 0x1_0000_0000_0000_0000,
    ensures
        exists|front: Seq<char>|
            limited_prompt(
                appended_history(history, role, content),
                latest,
                preamble,
                HISTORY_MAX_ENTRIES as nat,
                HISTORY_MAX_ENTRY_BYTES as nat,
                usize::MAX as nat,
            ) == front + role + ": "@ + clamp_entry(
                content,
                HISTORY_MAX_ENTRY_BYTES as nat,
                history_marker_lead(),
            ) + "\n\nUser: "@ + latest + "\nAssistant:"@,
{
    let c = clamp_entry(content, HISTORY_MAX_ENTRY_BYTES as nat, history_marker_lead());
    law_history_entry_fits(content);
    law_append_history_len(history, role, content);
    let a = appended_history(history, role, content);
    let sel = selected_entries(a, HISTORY_MAX_ENTRIES as nat, HISTORY_MAX_ENTRY_BYTES as nat);
    let start = sat_sub(a.len() as int, HISTORY_MAX_ENTRIES as int);
    assert(sel.len() == a.len() - start);
    assert(sel.last() == sel[sel.len() - 1]);
    assert(a.last() == a[a.len() - 1]);
    assert(sel.last() == (role, c));
    let front = preamble + "\nConversation so far:\n"@ + conversation_lines(sel.drop_last());
    reveal_strlit("\n\nUser: ");
    reveal_strlit("\n");
    reveal_strlit("\nUser: ");
    assert("\n"@ + "\nUser: "@ =~= "\n\nUser: "@);
    let p = limited_prompt(a, latest, preamble, HISTORY_MAX_ENTRIES as nat, HISTORY_MAX_ENTRY_BYTES as nat, usize::MAX as nat);
    assert(p =~= front + role + ": "@ + c + "\n\nUser: "@ + latest + "\nAssistant:"@);
}

/// The tail marker takes 40 bytes.
pub proof fn lemma_tail_marker_len()
    ensures
        utf8_len(tail_marker()) == 40,
{
    reveal_strlit("\n...[prompt tail kept for fast mode]...\n");
    assert(tail_marker().len() == 40);
    assert forall|i: int| 0 <= i < tail_marker().len() implies (#[trigger] tail_marker()[i] as u32) <= 0x7f by {
        reveal_strlit("\n...[prompt tail kept for fast mode]...\n");
    }
    crate::text::lemma_utf8_len_ascii(tail_marker());
}

/// A limited prompt never exceeds its byte limit, once that limit leaves room
/// for the tail marker.
pub proof fn law_limited_prompt_fits(
    history: Seq<(Seq<char>, Seq<char>)>,
    latest: Seq<char>,
    preamble: Seq<char>,
    max_entries: nat,
    max_entry_bytes: nat,
    max_prompt_bytes: nat,
)
    requires
        max_prompt_bytes != usize::MAX,
        40 <= max_prompt_bytes,
    ensures
        utf8_len(limited_prompt(history, latest, preamble, max_entries, max_entry_bytes, max_prompt_bytes))
            <= max_prompt_bytes,
{
    lemma_tail_marker_len();
    let selected = selected_entries(history, max_entries, max_entry_bytes);
    let k = fitting_start(preamble, selected, latest, max_prompt_bytes, 0);
    let p = prompt_with_entries(preamble, selected.subrange(k, selected.len() as int), latest);
    if utf8_len(p) > max_prompt_bytes {
        let keep = sat_sub(max_prompt_bytes as int, utf8_len(tail_marker()) as int);
        lemma_suffix_within_fits(p, keep);
        lemma_utf8_len_concat(tail_marker(), suffix_within(p, keep));
    }
}

} // verus!
