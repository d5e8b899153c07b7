//! The doctor's edits of the configuration document along dotted paths, and
//! the check of the relative paths it may touch.
use vstd::prelude::*;

use crate::json::{find_key, json_wf, object_entries, key_index, lemma_key_index, lemma_key_index_same_keys, member, JsonValue};
use crate::text::{chars_of, concat3, contains_seq, owned, split_chars, split_segments, str_contains, string_from_chars, strings_view, trim, trim_vec, vecs_view};

verus! {

broadcast use vstd::string::group_string_axioms;

// ---------------------------------------------------------------------------
// Dotted paths
// ---------------------------------------------------------------------------

/// The trimmed, non-empty segments, in order.
pub open spec fn kept_parts(segs: Seq<Seq<char>>) -> Seq<Seq<char>>
    decreases segs.len(),
{
    if segs.len() == 0 {
        Seq::empty()
    } else {
        let rest = kept_parts(segs.drop_last());
        if trim(segs.last()).len() > 0 {
            rest.push(trim(segs.last()))
        } else {
            rest
        }
    }
}

/// The member names of a dotted path: its `.`-separated segments, trimmed,
/// the empty ones left out.
pub open spec fn path_parts(path: Seq<char>) -> Seq<Seq<char>> {
    kept_parts(split_segments(path, '.'))
}

/// The member names of a dotted path (see `path_parts`).
pub fn dotted_path_parts(dotted_path: &str) -> (r: Vec<String>)
    ensures
        strings_view(r@) == path_parts(dotted_path@),
{
    let v = chars_of(dotted_path);
    let segs = split_chars(&v, '.');
    let ghost sv = vecs_view(segs@);
    let mut out: Vec<String> = Vec::new();
    let mut i: usize = 0;
    while i < segs.len()
        invariant
            i <= segs@.len(),
            sv == vecs_view(segs@),
            strings_view(out@) == kept_parts(sv.take(i as int)),
        decreases segs@.len() - i,
    {
        let ghost before = out@;
        assert(sv.take(i as int + 1).drop_last() =~= sv.take(i as int));
        let t = trim_vec(&segs[i]);
        if t.len() > 0 {
            out.push(string_from_chars(t.as_slice()));
            assert(strings_view(out@) =~= strings_view(before).push(t@));
        }
        i = i + 1;
    }
    assert(sv.take(segs@.len() as int) =~= sv);
    out
}

/// The value at the end of `parts`, following object members from `v`.
pub open spec fn get_path(v: JsonValue, parts: Seq<Seq<char>>) -> Option<JsonValue>
    decreases parts.len(),
{
    if parts.len() == 0 {
        Some(v)
    } else {
        match member(v, parts[0]) {
            Some(child) => get_path(child, parts.drop_first()),
            None => None,
        }
    }
}

/// The value at the end of `parts[i..]` from `v`.
fn get_parts<'a>(v: &'a JsonValue, parts: &Vec<String>, i: usize, end: usize) -> (r: Option<
    &'a JsonValue,
>)
    requires
        i <= end <= parts@.len(),
    ensures
        match r {
            Some(x) => get_path(*v, strings_view(parts@).subrange(i as int, end as int)) == Some(
                *x,
            ),
            None => get_path(*v, strings_view(parts@).subrange(i as int, end as int)) is None,
        },
{
    let ghost pv = strings_view(parts@);
    let mut cursor: &JsonValue = v;
    let mut j = i;
    while j < end
        invariant
            i <= j <= end <= parts@.len(),
            pv == strings_view(parts@),
            get_path(*v, pv.subrange(i as int, end as int)) == get_path(
                *cursor,
                pv.subrange(j as int, end as int),
            ),
        decreases end - j,
    {
        assert(pv.subrange(j as int, end as int).drop_first() =~= pv.subrange(j + 1, end as int));
        assert(pv.subrange(j as int, end as int)[0] == parts@[j as int]@);
        match cursor.get(parts[j].as_str()) {
            Some(next) => {
                cursor = next;
            },
            None => {
                return None;
            },
        }
        j = j + 1;
    }
    assert(pv.subrange(end as int, end as int).len() == 0);
    Some(cursor)
}

/// The value at a dotted path of `value`; `value` itself for a path without
/// member names.
pub fn json_path_get<'a>(value: &'a JsonValue, dotted_path: &str) -> (r: Option<&'a JsonValue>)
    ensures
        match r {
            Some(x) => get_path(*value, path_parts(dotted_path@)) == Some(*x),
            None => get_path(*value, path_parts(dotted_path@)) is None,
        },
{
    let parts = dotted_path_parts(dotted_path);
    let r = get_parts(value, &parts, 0, parts.len());
    assert(strings_view(parts@).subrange(0, parts@.len() as int) =~= strings_view(parts@));
    r
}

// ---------------------------------------------------------------------------
// Deleting
// ---------------------------------------------------------------------------

/// Whether deleting at `parts` removes something: the object at
/// `parts.drop_last()` has a member `parts.last()`.
pub open spec fn delete_applies(v: JsonValue, parts: Seq<Seq<char>>) -> bool {
    parts.len() > 0 && match get_path(v, parts.drop_last()) {
        Some(p) => member(p, parts.last()) is Some,
        None => false,
    }
}

/// `new` is `old` with the first member named `parts.last()` removed from the
/// object at `parts.drop_last()`, all else kept.
pub open spec fn deleted(old: JsonValue, new: JsonValue, parts: Seq<Seq<char>>) -> bool
    decreases parts.len(),
{
    if parts.len() == 0 {
        false
    } else {
        match old {
            JsonValue::Object(oe) => {
                let i = key_index(oe@, parts[0], 0);
                &&& i >= 0
                &&& new matches JsonValue::Object(ne)
                &&& if parts.len() == 1 {
                    ne@ == oe@.remove(i)
                } else {
                    &&& ne@.len() == oe@.len()
                    &&& forall|j: int| 0 <= j < oe@.len() && j != i ==> ne@[j] == oe@[j]
                    &&& ne@[i].0 == oe@[i].0
                    &&& deleted(oe@[i].1, ne@[i].1, parts.drop_first())
                }
            },
            _ => false,
        }
    }
}

/// Unfolds `delete_applies` one member down the path.
proof fn lemma_delete_applies_step(v: JsonValue, parts: Seq<Seq<char>>)
    requires
        parts.len() >= 2,
        member(v, parts[0]) is Some,
    ensures
        delete_applies(v, parts) == delete_applies(member(v, parts[0])->0, parts.drop_first()),
{
    assert(parts.drop_last().drop_first() =~= parts.drop_first().drop_last());
    assert(parts.drop_last()[0] == parts[0]);
}

/// Removes the member at `parts[i..]`, which `delete_applies`.
fn delete_at(v: &mut JsonValue, parts: &Vec<String>, i: usize)
    requires
        i < parts@.len(),
        delete_applies(*old(v), strings_view(parts@).subrange(i as int, parts@.len() as int)),
    ensures
        deleted(*old(v), *final(v), strings_view(parts@).subrange(i as int, parts@.len() as int)),
    decreases parts@.len() - i,
{
    let n = parts.len();
    let ghost pv = strings_view(parts@);
    let ghost rest = pv.subrange(i as int, parts@.len() as int);
    assert(rest[0] == parts@[i as int]@);
    proof {
        if rest.len() == 1 {
            assert(rest.drop_last().len() == 0);
        } else {
            lemma_key_index(object_entries(*v), rest[0], 0);
        }
    }
    match v {
        JsonValue::Object(entries) => {
            let ghost oe = entries@;
            let idx = match find_key(entries, parts[i].as_str()) {
                Some(idx) => idx,
                None => {
                    proof {
                        if rest.len() >= 2 {
                            assert(rest.drop_last()[0] == rest[0]);
                        }
                    }
                    return;
                },
            };
            if i + 1 == n {
                let _removed = entries.remove(idx);
            } else {
                proof {
                    lemma_delete_applies_step(JsonValue::Object(*entries), rest);
                    assert(rest.drop_first() =~= pv.subrange(i + 1, parts@.len() as int));
                }
                let (k, mut child) = entries.remove(idx);
                delete_at(&mut child, parts, i + 1);
                entries.insert(idx, (k, child));
                assert(entries@.len() == oe.len());
                assert forall|j: int| 0 <= j < oe.len() && j != idx implies entries@[j] == oe[j] by {
                }
                assert(rest.drop_first() =~= pv.subrange(i + 1, parts@.len() as int));
            }
        },
        _ => {},
    }
}

/// Removes the member named by the last segment of a dotted path from the
/// object at the path before it. Returns whether a member was removed; when
/// none was, `value` is left as it was.
pub fn delete_json_path(value: &mut JsonValue, dotted_path: &str) -> (r: bool)
    ensures
        r == delete_applies(*old(value), path_parts(dotted_path@)),
        r ==> deleted(*old(value), *final(value), path_parts(dotted_path@)),
        !r ==> *final(value) == *old(value),
        json_wf(*old(value)) ==> json_wf(*final(value)),
        r && json_wf(*old(value)) ==> get_path(*final(value), path_parts(dotted_path@)) is None,
{
    let parts = dotted_path_parts(dotted_path);
    if parts.len() == 0 {
        return false;
    }
    let ghost pv = strings_view(parts@);
    let last = parts.len() - 1;
    let applies = match get_parts(value, &parts, 0, last) {
        Some(parent) => parent.get(parts[last].as_str()).is_some(),
        None => false,
    };
    assert(pv.subrange(0, last as int) =~= pv.drop_last());
    assert(pv.subrange(0, parts@.len() as int) =~= pv);
    assert(pv.last() == parts@[last as int]@);
    if applies {
        let ghost before = *value;
        delete_at(value, &parts, 0);
        proof {
            if json_wf(before) {
                law_delete_keeps_wf(before, *value, pv);
                law_get_after_delete(before, *value, pv);
            }
        }
    }
    applies
}

// ---------------------------------------------------------------------------
// Inserting or replacing
// ---------------------------------------------------------------------------

/// `new` is the chain of one-member objects along `parts`, ending in `value`.
pub open spec fn fresh_chain(new: JsonValue, parts: Seq<Seq<char>>, value: JsonValue) -> bool
    decreases parts.len(),
{
    if parts.len() == 0 {
        new == value
    } else {
        &&& new matches JsonValue::Object(ne)
        &&& ne@.len() == 1
        &&& ne@[0].0@ == parts[0]
        &&& fresh_chain(ne@[0].1, parts.drop_first(), value)
    }
}

/// `new` is `old` with `value` set at `parts`: a missing member is appended,
/// holding the chain of new objects down to `value`; an existing one is
/// followed, or replaced at the end of the path.
pub open spec fn upserted(
    old: JsonValue,
    new: JsonValue,
    parts: Seq<Seq<char>>,
    value: JsonValue,
) -> bool
    decreases parts.len(),
{
    if parts.len() == 0 {
        false
    } else {
        match old {
            JsonValue::Object(oe) => {
                let i = key_index(oe@, parts[0], 0);
                &&& new matches JsonValue::Object(ne)
                &&& if i < 0 {
                    &&& ne@.len() == oe@.len() + 1
                    &&& ne@.take(oe@.len() as int) == oe@
                    &&& ne@.last().0@ == parts[0]
                    &&& fresh_chain(ne@.last().1, parts.drop_first(), value)
                } else if parts.len() == 1 {
                    ne@ == oe@.update(i, (oe@[i].0, value))
                } else {
                    &&& ne@.len() == oe@.len()
                    &&& forall|j: int| 0 <= j < oe@.len() && j != i ==> ne@[j] == oe@[j]
                    &&& ne@[i].0 == oe@[i].0
                    &&& upserted(oe@[i].1, ne@[i].1, parts.drop_first(), value)
                }
            },
            _ => false,
        }
    }
}

/// The message for a path segment whose value is not an object.
pub open spec fn not_object_message(part: Seq<char>) -> Seq<char> {
    "path segment '"@ + part + "' is not an object"@
}

/// The message for a leaf whose parent is not an object.
pub const TARGET_NOT_OBJECT: &'static str = "target parent is not an object";

/// The message for a path without member names.
pub const EMPTY_PATH: &'static str = "doctor config-upsert requires non-empty <json.path>";

/// Why setting a value at `parts` fails, if it does: a segment on the way is
/// not an object.
pub open spec fn upsert_error(old: JsonValue, parts: Seq<Seq<char>>) -> Option<Seq<char>>
    decreases parts.len(),
{
    if parts.len() == 0 {
        None
    } else {
        match old {
            JsonValue::Object(oe) => {
                let i = key_index(oe@, parts[0], 0);
                if parts.len() == 1 || i < 0 {
                    None
                } else if oe@[i].1 is Object {
                    upsert_error(oe@[i].1, parts.drop_first())
                } else {
                    Some(not_object_message(parts[0]))
                }
            },
            _ => if parts.len() == 1 {
                Some(TARGET_NOT_OBJECT@)
            } else {
                Some(not_object_message(parts[0]))
            },
        }
    }
}

/// The message for a segment that is not an object.
fn not_object_error(part: &str) -> (r: String)
    ensures
        r@ == not_object_message(part@),
{
    concat3("path segment '", part, "' is not an object")
}

/// Why setting a value at `parts[i..]` of `v` fails (see `upsert_error`).
fn upsert_check(v: &JsonValue, parts: &Vec<String>, i: usize) -> (r: Result<(), String>)
    requires
        i < parts@.len(),
    ensures
        match upsert_error(*v, strings_view(parts@).subrange(i as int, parts@.len() as int)) {
            Some(e) => r matches Err(m) && m@ == e,
            None => r is Ok,
        },
    decreases parts@.len() - i,
{
    let n = parts.len();
    let ghost rest = strings_view(parts@).subrange(i as int, parts@.len() as int);
    assert(rest[0] == parts@[i as int]@);
    match v {
        JsonValue::Object(entries) => match find_key(entries, parts[i].as_str()) {
            None => Ok(()),
            Some(idx) => {
                if i + 1 == n {
                    Ok(())
                } else if !entries[idx].1.is_object() {
                    Err(not_object_error(parts[i].as_str()))
                } else {
                    assert(rest.drop_first() =~= strings_view(parts@).subrange(
                        i + 1,
                        parts@.len() as int,
                    ));
                    upsert_check(&entries[idx].1, parts, i + 1)
                }
            },
        },
        _ => {
            if i + 1 == n {
                Err(owned(TARGET_NOT_OBJECT))
            } else {
                Err(not_object_error(parts[i].as_str()))
            }
        },
    }
}

/// The chain of one-member objects along `parts[i..]`, ending in `value`.
fn fresh_chain_value(parts: &Vec<String>, i: usize, value: JsonValue) -> (r: JsonValue)
    requires
        i <= parts@.len(),
    ensures
        fresh_chain(r, strings_view(parts@).subrange(i as int, parts@.len() as int), value),
    decreases parts@.len() - i,
{
    let ghost rest = strings_view(parts@).subrange(i as int, parts@.len() as int);
    if i == parts.len() {
        assert(rest.len() == 0);
        value
    } else {
        let inner = fresh_chain_value(parts, i + 1, value);
        let mut entries: Vec<(String, JsonValue)> = Vec::new();
        entries.push((parts[i].clone(), inner));
        assert(rest.drop_first() =~= strings_view(parts@).subrange(i + 1, parts@.len() as int));
        assert(rest[0] == parts@[i as int]@);
        JsonValue::Object(entries)
    }
}

/// Sets `value` at `parts[i..]` of `v`, where that does not fail.
fn upsert_at(v: &mut JsonValue, parts: &Vec<String>, i: usize, value: JsonValue)
    requires
        i < parts@.len(),
        upsert_error(*old(v), strings_view(parts@).subrange(i as int, parts@.len() as int)) is None,
        *old(v) is Object,
    ensures
        upserted(*old(v), *final(v), strings_view(parts@).subrange(i as int, parts@.len() as int), value),
    decreases parts@.len() - i,
{
    let n = parts.len();
    let ghost rest = strings_view(parts@).subrange(i as int, parts@.len() as int);
    assert(rest[0] == parts@[i as int]@);
    assert(rest.drop_first() =~= strings_view(parts@).subrange(i + 1, parts@.len() as int));
    match v {
        JsonValue::Object(entries) => {
            let ghost oe = entries@;
            match find_key(entries, parts[i].as_str()) {
                None => {
                    let chain = fresh_chain_value(parts, i + 1, value);
                    entries.push((parts[i].clone(), chain));
                    assert(entries@.take(oe.len() as int) =~= oe);
                },
                Some(idx) => {
                    if i + 1 == n {
                        let (k, _previous) = entries.remove(idx);
                        entries.insert(idx, (k, value));
                        assert(entries@ =~= oe.update(idx as int, (oe[idx as int].0, value)));
                    } else {
                        let (k, mut child) = entries.remove(idx);
                        upsert_at(&mut child, parts, i + 1, value);
                        entries.insert(idx, (k, child));
                        assert(entries@.len() == oe.len());
                        assert forall|j: int| 0 <= j < oe.len() && j != idx implies entries@[j] == oe[j] by {
                        }
                    }
                },
            }
        },
        _ => {},
    }
}

/// Sets `next_value` at a dotted path, creating the missing objects on the
/// way. Fails, leaving `value` as it was, when the path has no member names or
/// a value on the way is not an object.
pub fn upsert_json_path(value: &mut JsonValue, dotted_path: &str, next_value: JsonValue) -> (r:
    Result<(), String>)
    ensures
        ({
            let parts = path_parts(dotted_path@);
            if parts.len() == 0 {
                &&& r matches Err(m) && m@ == EMPTY_PATH@
                &&& *final(value) == *old(value)
            } else {
                match upsert_error(*old(value), parts) {
                    Some(e) => {
                        &&& r matches Err(m) && m@ == e
                        &&& *final(value) == *old(value)
                    },
                    None => {
                        &&& r is Ok
                        &&& upserted(*old(value), *final(value), parts, next_value)
                    },
                }
            }
        }),
        json_wf(*old(value)) && json_wf(next_value) ==> json_wf(*final(value)),
{
    let parts = dotted_path_parts(dotted_path);
    if parts.len() == 0 {
        return Err(owned(EMPTY_PATH));
    }
    let ghost pv = strings_view(parts@);
    assert(pv.subrange(0, parts@.len() as int) =~= pv);
    match upsert_check(value, &parts, 0) {
        Err(e) => Err(e),
        Ok(()) => {
            proof {
                if !(*value is Object) {
                    assert(upsert_error(*value, pv) is Some);
                }
            }
            let ghost before = *value;
            let ghost set = next_value;
            upsert_at(value, &parts, 0, next_value);
            proof {
                if json_wf(before) && json_wf(set) {
                    law_upsert_keeps_wf(before, *value, pv, set);
                }
            }
            Ok(())
        },
    }
}

// ---------------------------------------------------------------------------
// Laws of the path edits
// ---------------------------------------------------------------------------

/// Reading along a fresh chain gives its value.
proof fn lemma_fresh_chain_get(new: JsonValue, parts: Seq<Seq<char>>, value: JsonValue)
    requires
        fresh_chain(new, parts, value),
    ensures
        get_path(new, parts) == Some(value),
    decreases parts.len(),
{
    if parts.len() > 0 {
        let ne = object_entries(new);
        assert(key_index(ne, parts[0], 0) == 0);
        lemma_fresh_chain_get(ne[0].1, parts.drop_first(), value);
    }
}

/// A member appended under a new key is found at the end.
proof fn lemma_key_index_appended(
    oe: Seq<(String, JsonValue)>,
    ne: Seq<(String, JsonValue)>,
    key: Seq<char>,
)
    requires
        key_index(oe, key, 0) == -1,
        ne.len() == oe.len() + 1,
        ne.take(oe.len() as int) == oe,
        ne.last().0@ == key,
    ensures
        key_index(ne, key, 0) == oe.len(),
{
    lemma_key_index(oe, key, 0);
    lemma_key_index(ne, key, 0);
    let r = key_index(ne, key, 0);
    if 0 <= r < oe.len() {
        assert(ne[r] == ne.take(oe.len() as int)[r]);
    }
}

/// What a dotted path reads right after a value was set there is that value.
pub proof fn law_get_after_upsert(
    old: JsonValue,
    new: JsonValue,
    parts: Seq<Seq<char>>,
    value: JsonValue,
)
    requires
        upserted(old, new, parts, value),
    ensures
        get_path(new, parts) == Some(value),
    decreases parts.len(),
{
    let oe = object_entries(old);
    let ne = object_entries(new);
    let i = key_index(oe, parts[0], 0);
    lemma_key_index(oe, parts[0], 0);
    if i < 0 {
        lemma_key_index_appended(oe, ne, parts[0]);
        lemma_fresh_chain_get(ne.last().1, parts.drop_first(), value);
        assert(ne.last() == ne[oe.len() as int]);
        assert(member(new, parts[0]) == Some(ne.last().1));
    } else {
        lemma_key_index(oe, parts[0], 0);
        assert forall|j: int| 0 <= j < oe.len() implies oe[j].0@ == ne[j].0@ by {
            if j != i {
                assert(ne[j] == oe[j]);
            }
        }
        lemma_key_index_same_keys(oe, ne, parts[0], 0);
        if parts.len() > 1 {
            law_get_after_upsert(oe[i].1, ne[i].1, parts.drop_first(), value);
        } else {
            assert(parts.drop_first().len() == 0);
        }
    }
}

/// Setting a value at a path leaves the other members of the top object as
/// they were.
pub proof fn law_upsert_keeps_siblings(
    old: JsonValue,
    new: JsonValue,
    parts: Seq<Seq<char>>,
    value: JsonValue,
    other: Seq<char>,
)
    requires
        upserted(old, new, parts, value),
        other != parts[0],
    ensures
        member(new, other) == member(old, other),
{
    let oe = object_entries(old);
    let ne = object_entries(new);
    let key = parts[0];
    let i = key_index(oe, key, 0);
    lemma_key_index(oe, key, 0);
    lemma_key_index(oe, other, 0);
    lemma_key_index(ne, other, 0);
    let a = key_index(oe, other, 0);
    let b = key_index(ne, other, 0);
    if i < 0 {
        if 0 <= b < oe.len() {
            assert(ne[b] == ne.take(oe.len() as int)[b]);
        }
        if a >= 0 {
            assert(ne.take(oe.len() as int)[a] == oe[a]);
        }
    } else {
        assert forall|j: int| 0 <= j < oe.len() implies oe[j].0@ == ne[j].0@ by {
            if j != i {
                assert(ne[j] == oe[j]);
            }
        }
        lemma_key_index_same_keys(oe, ne, other, 0);
        if a >= 0 {
            assert(a != i);
            assert(ne[a] == oe[a]);
        }
    }
}

/// Deleting at a path leaves the other members of the top object as they
/// were.
pub proof fn law_delete_keeps_siblings(
    old: JsonValue,
    new: JsonValue,
    parts: Seq<Seq<char>>,
    other: Seq<char>,
)
    requires
        deleted(old, new, parts),
        other != parts[0],
    ensures
        member(new, other) == member(old, other),
{
    let oe = object_entries(old);
    let ne = object_entries(new);
    let key = parts[0];
    let i = key_index(oe, key, 0);
    lemma_key_index(oe, key, 0);
    lemma_key_index(oe, other, 0);
    lemma_key_index(ne, other, 0);
    let a = key_index(oe, other, 0);
    let b = key_index(ne, other, 0);
    if parts.len() == 1 {
        if a >= 0 {
            assert(a != i);
            if a < i {
                assert(ne[a] == oe[a]);
            } else {
                assert(ne[a - 1] == oe[a]);
            }
        }
        if b >= 0 {
            if b < i {
                assert(ne[b] == oe[b]);
            } else {
                assert(ne[b] == oe[b + 1]);
            }
        }
    } else {
        assert forall|j: int| 0 <= j < oe.len() implies oe[j].0@ == ne[j].0@ by {
            if j != i {
                assert(ne[j] == oe[j]);
            }
        }
        lemma_key_index_same_keys(oe, ne, other, 0);
        if a >= 0 {
            assert(a != i);
            assert(ne[a] == oe[a]);
        }
    }
}

/// Neither path is a prefix of the other: they part at some member name.
pub open spec fn paths_diverge(q: Seq<Seq<char>>, p: Seq<Seq<char>>) -> bool
    decreases q.len(),
{
    q.len() > 0 && p.len() > 0 && (q[0] != p[0] || paths_diverge(q.drop_first(), p.drop_first()))
}

/// A path that parts from a fresh chain's path reads nothing in it.
proof fn lemma_fresh_chain_diverge(new: JsonValue, parts: Seq<Seq<char>>, value: JsonValue, q: Seq<Seq<char>>)
    requires
        fresh_chain(new, parts, value),
        paths_diverge(q, parts),
    ensures
        get_path(new, q) is None,
    decreases parts.len(),
{
    let ne = object_entries(new);
    lemma_key_index(ne, q[0], 0);
    if q[0] != parts[0] {
        assert(key_index(ne, q[0], 0) == -1);
    } else {
        assert(key_index(ne, q[0], 0) == 0);
        lemma_fresh_chain_diverge(ne[0].1, parts.drop_first(), value, q.drop_first());
    }
}

/// Setting a value at a path leaves every path that parts from it, at any
/// depth, reading what it read before.
pub proof fn law_upsert_keeps_unrelated_paths(
    old: JsonValue,
    new: JsonValue,
    parts: Seq<Seq<char>>,
    value: JsonValue,
    q: Seq<Seq<char>>,
)
    requires
        upserted(old, new, parts, value),
        paths_diverge(q, parts),
    ensures
        get_path(new, q) == get_path(old, q),
    decreases parts.len(),
{
    if q[0] != parts[0] {
        law_upsert_keeps_siblings(old, new, parts, value, q[0]);
    } else {
        let oe = object_entries(old);
        let ne = object_entries(new);
        let i = key_index(oe, parts[0], 0);
        lemma_key_index(oe, parts[0], 0);
        if i < 0 {
            lemma_key_index_appended(oe, ne, parts[0]);
            assert(ne.last() == ne[oe.len() as int]);
            lemma_fresh_chain_diverge(ne.last().1, parts.drop_first(), value, q.drop_first());
        } else {
            assert forall|j: int| 0 <= j < oe.len() implies oe[j].0@ == ne[j].0@ by {
                if j != i {
                    assert(ne[j] == oe[j]);
                }
            }
            lemma_key_index_same_keys(oe, ne, parts[0], 0);
            law_upsert_keeps_unrelated_paths(oe[i].1, ne[i].1, parts.drop_first(), value, q.drop_first());
        }
    }
}

/// Deleting at a path leaves every path that parts from it, at any depth,
/// reading what it read before.
pub proof fn law_delete_keeps_unrelated_paths(
    old: JsonValue,
    new: JsonValue,
    parts: Seq<Seq<char>>,
    q: Seq<Seq<char>>,
)
    requires
        deleted(old, new, parts),
        paths_diverge(q, parts),
    ensures
        get_path(new, q) == get_path(old, q),
    decreases parts.len(),
{
    if q[0] != parts[0] {
        law_delete_keeps_siblings(old, new, parts, q[0]);
    } else {
        assert(paths_diverge(q.drop_first(), parts.drop_first()));
        assert(parts.len() > 1);
        let oe = object_entries(old);
        let ne = object_entries(new);
        let i = key_index(oe, parts[0], 0);
        lemma_key_index(oe, parts[0], 0);
        assert forall|j: int| 0 <= j < oe.len() implies oe[j].0@ == ne[j].0@ by {
            if j != i {
                assert(ne[j] == oe[j]);
            }
        }
        lemma_key_index_same_keys(oe, ne, parts[0], 0);
        law_delete_keeps_unrelated_paths(oe[i].1, ne[i].1, parts.drop_first(), q.drop_first());
    }
}

/// Deleting a member that was just added under a new name gives back the
/// members the object had.
pub proof fn law_delete_undoes_fresh_upsert(
    old: JsonValue,
    mid: JsonValue,
    new: JsonValue,
    key: Seq<char>,
    value: JsonValue,
)
    requires
        member(old, key) is None,
        upserted(old, mid, seq![key], value),
        deleted(mid, new, seq![key]),
    ensures
        new is Object,
        object_entries(new) == object_entries(old),
{
    let oe = object_entries(old);
    let me = object_entries(mid);
    let parts = seq![key];
    assert(parts[0] == key && parts.len() == 1);
    lemma_key_index(oe, key, 0);
    assert(key_index(oe, key, 0) == -1);
    lemma_key_index_appended(oe, me, key);
    assert(object_entries(new) =~= oe);
}

/// Once a member is deleted from a well-formed document, its path reads
/// nothing.
pub proof fn law_get_after_delete(old: JsonValue, new: JsonValue, parts: Seq<Seq<char>>)
    requires
        deleted(old, new, parts),
        json_wf(old),
    ensures
        get_path(new, parts) is None,
    decreases parts.len(),
{
    let oe = object_entries(old);
    let ne = object_entries(new);
    let i = key_index(oe, parts[0], 0);
    lemma_key_index(oe, parts[0], 0);
    if parts.len() == 1 {
        lemma_key_index(ne, parts[0], 0);
        let b = key_index(ne, parts[0], 0);
        if b >= 0 {
            if b < i {
                assert(ne[b] == oe[b]);
            } else {
                assert(ne[b] == oe[b + 1]);
                assert(oe[i].0@ == parts[0] && oe[b + 1].0@ == parts[0]);
            }
        }
    } else {
        assert forall|j: int| 0 <= j < oe.len() implies oe[j].0@ == ne[j].0@ by {
            if j != i {
                assert(ne[j] == oe[j]);
            }
        }
        lemma_key_index_same_keys(oe, ne, parts[0], 0);
        assert(json_wf(oe[i].1));
        law_get_after_delete(oe[i].1, ne[i].1, parts.drop_first());
    }
}

/// A fresh chain ending in a well-formed value is well formed.
proof fn lemma_fresh_chain_wf(new: JsonValue, parts: Seq<Seq<char>>, value: JsonValue)
    requires
        fresh_chain(new, parts, value),
        json_wf(value),
    ensures
        json_wf(new),
    decreases parts.len(),
{
    if parts.len() > 0 {
        let ne = object_entries(new);
        lemma_fresh_chain_wf(ne[0].1, parts.drop_first(), value);
    }
}

/// Setting a well-formed value in a well-formed document keeps it well formed.
pub proof fn law_upsert_keeps_wf(old: JsonValue, new: JsonValue, parts: Seq<Seq<char>>, value: JsonValue)
    requires
        upserted(old, new, parts, value),
        json_wf(old),
        json_wf(value),
    ensures
        json_wf(new),
    decreases parts.len(),
{
    let oe = object_entries(old);
    let ne = object_entries(new);
    let i = key_index(oe, parts[0], 0);
    lemma_key_index(oe, parts[0], 0);
    if i < 0 {
        let n = oe.len() as int;
        assert forall|j: int| 0 <= j < n implies #[trigger] ne[j] == oe[j] by {
            assert(ne.take(n)[j] == ne[j]);
        }
        assert(ne.last() == ne[n]);
        lemma_fresh_chain_wf(ne[n].1, parts.drop_first(), value);
        assert forall|a: int, b: int|
            0 <= a < ne.len() && 0 <= b < ne.len() && #[trigger] ne[a].0@ == #[trigger] ne[b].0@ implies a == b by {
            if a < n && b < n {
                assert(oe[a].0@ == oe[b].0@);
            } else if a < n {
                assert(oe[a].0@ == parts[0]);
            } else if b < n {
                assert(oe[b].0@ == parts[0]);
            }
        }
        assert forall|j: int| 0 <= j < ne.len() implies json_wf((#[trigger] ne[j]).1) by {
            if j < n {
                assert(json_wf(oe[j].1));
            }
        }
    } else if parts.len() == 1 {
        assert forall|a: int, b: int|
            0 <= a < ne.len() && 0 <= b < ne.len() && #[trigger] ne[a].0@ == #[trigger] ne[b].0@ implies a == b by {
            assert(oe[a].0@ == oe[b].0@);
        }
        assert forall|j: int| 0 <= j < ne.len() implies json_wf((#[trigger] ne[j]).1) by {
            if j != i {
                assert(json_wf(oe[j].1));
            }
        }
    } else {
        assert forall|j: int| 0 <= j < oe.len() implies oe[j].0@ == ne[j].0@ by {
            if j != i {
                assert(ne[j] == oe[j]);
            }
        }
        law_upsert_keeps_wf(oe[i].1, ne[i].1, parts.drop_first(), value);
        assert forall|a: int, b: int|
            0 <= a < ne.len() && 0 <= b < ne.len() && #[trigger] ne[a].0@ == #[trigger] ne[b].0@ implies a == b by {
            assert(oe[a].0@ == oe[b].0@);
        }
        assert forall|j: int| 0 <= j < ne.len() implies json_wf((#[trigger] ne[j]).1) by {
            if j != i {
                assert(ne[j] == oe[j]);
                assert(json_wf(oe[j].1));
            }
        }
    }
}

/// Deleting from a well-formed document keeps it well formed.
pub proof fn law_delete_keeps_wf(old: JsonValue, new: JsonValue, parts: Seq<Seq<char>>)
    requires
        deleted(old, new, parts),
        json_wf(old),
    ensures
        json_wf(new),
    decreases parts.len(),
{
    let oe = object_entries(old);
    let ne = object_entries(new);
    let i = key_index(oe, parts[0], 0);
    lemma_key_index(oe, parts[0], 0);
    if parts.len() == 1 {
        assert forall|a: int, b: int|
            0 <= a < ne.len() && 0 <= b < ne.len() && #[trigger] ne[a].0@ == #[trigger] ne[b].0@ implies a == b by {
            let a2 = if a < i { a } else { a + 1 };
            let b2 = if b < i { b } else { b + 1 };
            assert(ne[a] == oe[a2]);
            assert(ne[b] == oe[b2]);
            assert(oe[a2].0@ == oe[b2].0@);
        }
        assert forall|j: int| 0 <= j < ne.len() implies json_wf((#[trigger] ne[j]).1) by {
            let j2 = if j < i { j } else { j + 1 };
            assert(ne[j] == oe[j2]);
            assert(json_wf(oe[j2].1));
        }
    } else {
        assert forall|j: int| 0 <= j < oe.len() implies oe[j].0@ == ne[j].0@ by {
            if j != i {
                assert(ne[j] == oe[j]);
            }
        }
        assert(json_wf(oe[i].1));
        law_delete_keeps_wf(oe[i].1, ne[i].1, parts.drop_first());
        assert forall|a: int, b: int|
            0 <= a < ne.len() && 0 <= b < ne.len() && #[trigger] ne[a].0@ == #[trigger] ne[b].0@ implies a == b by {
            assert(oe[a].0@ == oe[b].0@);
        }
        assert forall|j: int| 0 <= j < ne.len() implies json_wf((#[trigger] ne[j]).1) by {
            if j != i {
                assert(ne[j] == oe[j]);
                assert(json_wf(oe[j].1));
            }
        }
    }
}

// ---------------------------------------------------------------------------
// Relative paths
// ---------------------------------------------------------------------------

/// The message for an empty path.
pub const PATH_EMPTY: &'static str = "doctor file path cannot be empty";

/// The message for an absolute or home-relative path.
pub const PATH_NOT_RELATIVE: &'static str = "doctor file path must be relative to domain root";

/// The message for a path with a forbidden segment.
pub const PATH_TRAVERSAL: &'static str = "doctor file path contains forbidden traversal segment";

/// A segment is forbidden: it is `..`, holds a NUL character, or is empty
/// while the path holds `//`.
pub open spec fn forbidden_segment(seg: Seq<char>, path: Seq<char>) -> bool {
    seg == ".."@ || seg.contains('\0') || (seg.len() == 0 && contains_seq(path, "//"@))
}

/// Why a doctor file path is refused, if it is.
pub open spec fn relative_path_error(path: Seq<char>) -> Option<Seq<char>> {
    let t = trim(path);
    if t.len() == 0 {
        Some(PATH_EMPTY@)
    } else if t[0] == '/' || t[0] == '~' {
        Some(PATH_NOT_RELATIVE@)
    } else if exists|k: int|
        0 <= k < split_segments(t, '/').len() && forbidden_segment(
            #[trigger] split_segments(t, '/')[k],
            t,
        ) {
        Some(PATH_TRAVERSAL@)
    } else {
        None
    }
}

/// An accepted path is not empty, does not start at the root or the home
/// directory, and has no `..` segment.
pub proof fn law_accepted_path_stays_inside(path: Seq<char>)
    requires
        relative_path_error(path) is None,
    ensures
        trim(path).len() > 0,
        trim(path)[0] != '/' && trim(path)[0] != '~',
        forall|k: int|
            0 <= k < split_segments(trim(path), '/').len() ==> #[trigger] split_segments(
                trim(path),
                '/',
            )[k] != ".."@,
{
    assert forall|k: int|
        0 <= k < split_segments(trim(path), '/').len() implies #[trigger] split_segments(
        trim(path),
        '/',
    )[k] != ".."@ by {
        if split_segments(trim(path), '/')[k] == ".."@ {
            assert(forbidden_segment(split_segments(trim(path), '/')[k], trim(path)));
        }
    }
}

/// Checks that a doctor file path is relative to the domain root and does not
/// leave it (see `relative_path_error`).
pub fn validate_doctor_relative_path(path: &str) -> (r: Result<(), String>)
    ensures
        match relative_path_error(path@) {
            Some(e) => r matches Err(m) && m@ == e,
            None => r is Ok,
        },
{
    let v = chars_of(path);
    let t = trim_vec(&v);
    if t.len() == 0 {
        return Err(owned(PATH_EMPTY));
    }
    if t[0] == '/' || t[0] == '~' {
        return Err(owned(PATH_NOT_RELATIVE));
    }
    let trimmed = string_from_chars(t.as_slice());
    let has_double_slash = str_contains(trimmed.as_str(), "//");
    let segs = split_chars(&t, '/');
    let ghost sv = vecs_view(segs@);
    let mut k: usize = 0;
    while k < segs.len()
        invariant
            k <= segs@.len(),
            sv == vecs_view(segs@),
            sv == split_segments(trim(path@), '/'),
            t@ == trim(path@),
            t@.len() > 0,
            t@[0] != '/' && t@[0] != '~',
            has_double_slash == contains_seq(t@, "//"@),
            forall|j: int| 0 <= j < k ==> !forbidden_segment(#[trigger] sv[j], t@),
        decreases segs@.len() - k,
    {
        let seg = &segs[k];
        assert(sv[k as int] == seg@);
        let is_parent = seg.len() == 2 && seg[0] == '.' && seg[1] == '.';
        proof {
            reveal_strlit("..");
            if seg@ == ".."@ {
                assert(seg@.len() == 2);
            }
            if is_parent {
                assert(seg@ =~= ".."@);
            }
        }
        let mut has_nul = false;
        let mut j: usize = 0;
        while j < seg.len()
            invariant
                j <= seg@.len(),
                has_nul == exists|m: int| 0 <= m < j && seg@[m] == '\0',
            decreases seg@.len() - j,
        {
            if seg[j] == '\0' {
                has_nul = true;
            }
            j = j + 1;
        }
        proof {
            if seg@.contains('\0') {
                let m = choose|m: int| 0 <= m < seg@.len() && seg@[m] == '\0';
                assert(has_nul);
            }
        }
        if is_parent || has_nul || (seg.len() == 0 && has_double_slash) {
            assert(forbidden_segment(split_segments(trim(path@), '/')[k as int], trim(path@)));
            assert(trim(path@).len() > 0);
            assert(trim(path@)[0] != '/' && trim(path@)[0] != '~');
            assert(relative_path_error(path@) == Some(PATH_TRAVERSAL@));
            return Err(owned(PATH_TRAVERSAL));
        }
        k = k + 1;
    }
    Ok(())
}

} // verus!
